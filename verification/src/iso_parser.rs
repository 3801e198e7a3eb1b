//! The edge parser: an MTI and a primary bitmap at the front of a message,
//! accepted for authorization requests and responses.
use vstd::prelude::*;
use vstd::utf8::{decode_utf8, valid_utf8};
use crate::canonical::{mti4, mti_is};
use crate::text::{bytes_to_vec, utf8_text};

verus! {

/// The front of a message.
#[derive(Debug, PartialEq)]
pub struct Iso8583Message {
    pub mti: String,
    pub primary_bitmap: Vec<u8>,
}

/// Why a parser stopped.
#[derive(Debug, Clone, Copy, PartialEq, Eq, Structural)]
pub enum ErrorKind {
    /// The input ended before the element.
    Eof,
    /// The element's bytes are not text.
    MapRes,
    /// The MTI is not one this parser accepts.
    Tag,
}

/// A parse failure: where the failing parser stood, and why it stopped.
#[derive(Debug, PartialEq)]
pub struct ParseFailure<'a> {
    pub input: &'a [u8],
    pub code: ErrorKind,
}

/// What parsing the MTI gives: the text of the first four bytes and the rest.
pub open spec fn mti_parse(input: Seq<u8>) -> Result<(Seq<u8>, Seq<char>), (Seq<u8>, ErrorKind)> {
    if input.len() < 4 {
        Err((input, ErrorKind::Eof))
    } else if !valid_utf8(input.subrange(0, 4)) {
        Err((input, ErrorKind::MapRes))
    } else {
        Ok((input.subrange(4, input.len() as int), decode_utf8(input.subrange(0, 4))))
    }
}

/// Reads the MTI: four bytes of text.
pub fn parse_mti(input: &[u8]) -> (r: Result<(&[u8], String), ParseFailure<'_>>)
    ensures
        match mti_parse(input@) {
            Ok((rest, mti)) => r matches Ok((rr, m)) && rr@ == rest && m@ == mti,
            Err((at, code)) => r matches Err(e) && e.input@ == at && e.code == code,
        },
{
    if input.len() < 4 {
        return Err(ParseFailure { input, code: ErrorKind::Eof });
    }
    match utf8_text(&input[0..4]) {
        Some(s) => Ok((&input[4..input.len()], s)),
        None => Err(ParseFailure { input, code: ErrorKind::MapRes }),
    }
}

/// Reads the primary bitmap: eight bytes.
pub fn parse_primary_bitmap(input: &[u8]) -> (r: Result<(&[u8], Vec<u8>), ParseFailure<'_>>)
    ensures
        input@.len() < 8 ==> (r matches Err(e) && e.input@ == input@ && e.code == ErrorKind::Eof),
        input@.len() >= 8 ==> (r matches Ok((rest, bm)) && rest@ == input@.subrange(8, input@.len() as int)
            && bm@ == input@.subrange(0, 8)),
{
    if input.len() < 8 {
        return Err(ParseFailure { input, code: ErrorKind::Eof });
    }
    Ok((&input[8..input.len()], bytes_to_vec(&input[0..8])))
}

/// An MTI this parser accepts: `0100` or `0110`.
pub open spec fn accepted_mti(m: Seq<u8>) -> bool {
    m == mti4('0', '1', '0', '0') || m == mti4('0', '1', '1', '0')
}

/// Reads an MTI and a primary bitmap, accepting only `0100` and `0110`.
pub fn parse_iso8583(input: &[u8]) -> (r: Result<(&[u8], Iso8583Message), ParseFailure<'_>>)
    ensures
        input@.len() < 4 ==> (r matches Err(e) && e.input@ == input@ && e.code == ErrorKind::Eof),
        input@.len() >= 4 && !valid_utf8(input@.subrange(0, 4)) ==> (r matches Err(e) && e.input@ == input@
            && e.code == ErrorKind::MapRes),
        input@.len() >= 4 && valid_utf8(input@.subrange(0, 4)) && input@.len() < 12 ==> (r matches Err(e)
            && e.input@ == input@.subrange(4, input@.len() as int) && e.code == ErrorKind::Eof),
        input@.len() >= 12 && valid_utf8(input@.subrange(0, 4)) && !accepted_mti(input@.subrange(0, 4))
            ==> (r matches Err(e) && e.input@ == input@.subrange(12, input@.len() as int) && e.code
            == ErrorKind::Tag),
        input@.len() >= 12 && accepted_mti(input@.subrange(0, 4)) ==> (r matches Ok((rest, msg)) && rest@
            == input@.subrange(12, input@.len() as int) && msg.mti@ == decode_utf8(input@.subrange(0, 4))
            && msg.primary_bitmap@ == input@.subrange(4, 12)),
{
    proof {
        assert(accepted_mti(input@.subrange(0, 4)) ==> valid_utf8(input@.subrange(0, 4))) by {
            if accepted_mti(input@.subrange(0, 4)) {
                let b = input@.subrange(0, 4);
                assert(crate::text::all_ascii(b)) by {
                    assert forall|i: int| 0 <= i < b.len() implies #[trigger] b[i] < 128 by {}
                }
                crate::text::lemma_ascii_utf8(b);
            }
        }
    }
    let (rest, mti) = parse_mti(input)?;
    let (rest2, bitmap) = parse_primary_bitmap(rest)?;
    proof {
        assert(rest@.subrange(8, rest@.len() as int) =~= input@.subrange(12, input@.len() as int));
        assert(rest@.subrange(0, 8) =~= input@.subrange(4, 12));
    }
    let head = &input[0..4];
    let accepted = mti_is(head, 48u8, 49u8, 48u8, 48u8) || mti_is(head, 48u8, 49u8, 49u8, 48u8);
    if !accepted {
        return Err(ParseFailure { input: rest2, code: ErrorKind::Tag });
    }
    Ok((rest2, Iso8583Message { mti, primary_bitmap: bitmap }))
}

} // verus!
