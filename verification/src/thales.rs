//! The Thales HSM wire protocol: a two-byte big-endian length, then a
//! four-character header, a two-character command and the payload.
use vstd::prelude::*;
use vstd::string::StringExecFns;
use vstd::utf8::{decode_utf8, encode_utf8, is_char_boundary, valid_utf8};
use crate::framing::{be16, frame_split};
use crate::numeric::append_bytes;
use crate::text::{string_bytes, utf8_text};

verus! {

/// A message to or from the HSM.
#[derive(Debug, Clone, PartialEq, Eq)]
pub struct ThalesMessage {
    pub header: String,
    pub command: String,
    pub payload: String,
}

/// The content of a message.
pub struct ThalesView {
    pub header: Seq<char>,
    pub command: Seq<char>,
    pub payload: Seq<char>,
}

impl View for ThalesMessage {
    type V = ThalesView;

    open spec fn view(&self) -> ThalesView {
        ThalesView { header: self.header@, command: self.command@, payload: self.payload@ }
    }
}

/// Why a buffered frame is not a message.
#[derive(Debug)]
pub enum ThalesDecodeError {
    /// The frame is not UTF-8; it is handed back.
    InvalidUtf8 { frame: Vec<u8> },
    /// The frame is shorter than a header and a command.
    TooShort,
}

/// Why a message cannot be framed.
#[derive(Debug)]
pub enum ThalesEncodeError {
    /// Header, command and payload together exceed 65535 bytes.
    TooLong,
}

/// The HSM codec.
pub struct ThalesCodec;

/// What decoding the buffer gives: nothing until a frame is complete, else
/// the frame's message, or why it is none.
pub enum ThalesOutcome {
    Pending,
    Message(ThalesView),
    InvalidUtf8(Seq<u8>),
    TooShort,
}

/// Decoding the frame `data`.
pub open spec fn thales_message_of(data: Seq<u8>) -> ThalesOutcome {
    if !valid_utf8(data) {
        ThalesOutcome::InvalidUtf8(data)
    } else if data.len() < 6 {
        ThalesOutcome::TooShort
    } else {
        ThalesOutcome::Message(
            ThalesView {
                header: decode_utf8(data.subrange(0, 4)),
                command: decode_utf8(data.subrange(4, 6)),
                payload: decode_utf8(data.subrange(6, data.len() as int)),
            },
        )
    }
}

/// What decoding the buffer `src` gives.
pub open spec fn thales_decode_spec(src: Seq<u8>) -> ThalesOutcome {
    match frame_split(src) {
        None => ThalesOutcome::Pending,
        Some((data, _rest)) => thales_message_of(data),
    }
}

/// The buffer after decoding: the frame is consumed once complete.
pub open spec fn thales_rest(src: Seq<u8>) -> Seq<u8> {
    match frame_split(src) {
        None => src,
        Some((_data, rest)) => rest,
    }
}

/// The frame's text can be cut after its header and after its command.
pub open spec fn thales_sliceable(src: Seq<u8>) -> bool {
    match frame_split(src) {
        None => true,
        Some((data, _rest)) => !valid_utf8(data) || data.len() < 6 || (is_char_boundary(data, 4)
            && is_char_boundary(data, 6)),
    }
}

/// What a decode call returned, as an outcome.
pub open spec fn thales_result_view(r: Result<Option<ThalesMessage>, ThalesDecodeError>) -> ThalesOutcome {
    match r {
        Ok(None) => ThalesOutcome::Pending,
        Ok(Some(m)) => ThalesOutcome::Message(m@),
        Err(ThalesDecodeError::InvalidUtf8 { frame }) => ThalesOutcome::InvalidUtf8(frame@),
        Err(ThalesDecodeError::TooShort) => ThalesOutcome::TooShort,
    }
}

/// The frame of a message: its length, then header, command and payload.
pub open spec fn thales_encoding(m: ThalesView) -> Seq<u8> {
    let body = encode_utf8(m.header) + encode_utf8(m.command) + encode_utf8(m.payload);
    seq![(body.len() / 256) as u8, (body.len() % 256) as u8] + body
}

/// A message the frame can carry: at most 65535 bytes in all.
pub open spec fn thales_fits(m: ThalesView) -> bool {
    encode_utf8(m.header).len() + encode_utf8(m.command).len() + encode_utf8(m.payload).len() <= 65535
}

/// Whether the buffered frame's text can be cut where decoding cuts it.
pub fn thales_frame_sliceable(src: &[u8]) -> (r: bool)
    ensures
        r == thales_sliceable(src@),
{
    if src.len() < 2 {
        return true;
    }
    let n = (src[0] as usize) * 256 + (src[1] as usize);
    if src.len() - 2 < n {
        return true;
    }
    let data = &src[2..2 + n];
    match utf8_text(data) {
        None => true,
        Some(s) => {
            proof {
                vstd::utf8::decode_utf8_encode_utf8(data@);
            }
            let st: &str = s.as_str();
            st.as_bytes().len() < 6 || (st.is_char_boundary(4) && st.is_char_boundary(6))
        },
    }
}

impl ThalesCodec {
    /// Takes the next message out of the buffer: `Ok(None)` until a whole
    /// frame is buffered; a frame that is not UTF-8 or is shorter than six
    /// bytes is consumed and refused.
    pub fn decode(&mut self, src: &mut Vec<u8>) -> (r: Result<Option<ThalesMessage>, ThalesDecodeError>)
        requires
            thales_sliceable(old(src)@),
        ensures
            thales_result_view(r) == thales_decode_spec(old(src)@),
            final(src)@ == thales_rest(old(src)@),
    {
        if src.len() < 2 {
            return Ok(None);
        }
        let n = (src[0] as usize) * 256 + (src[1] as usize);
        if src.len() - 2 < n {
            return Ok(None);
        }
        let ghost whole = src@;
        let mut frame = src.split_off(2 + n);
        std::mem::swap(src, &mut frame);
        assert(frame@ =~= whole.subrange(0, 2 + n as int));
        let data: Vec<u8> = crate::text::bytes_to_vec(&frame.as_slice()[2..2 + n]);
        assert(data@ =~= whole.subrange(2, 2 + n as int));
        match utf8_text(data.as_slice()) {
            None => Err(ThalesDecodeError::InvalidUtf8 { frame: data }),
            Some(text) => {
                proof {
                    vstd::utf8::decode_utf8_encode_utf8(data@);
                }
                let st: &str = text.as_str();
                if st.as_bytes().len() < 6 {
                    return Err(ThalesDecodeError::TooShort);
                }
                let (header, tail) = st.split_at(4);
                proof {
                    let b = data@;
                    assert(encode_utf8(tail@) =~= b.subrange(4, b.len() as int));
                    vstd::utf8::encode_utf8_valid_utf8(tail@);
                    if b.len() > 6 {
                        vstd::utf8::is_char_boundary_iff_not_is_continuation_byte(b, 6);
                        vstd::utf8::is_char_boundary_iff_not_is_continuation_byte(encode_utf8(tail@), 2);
                        assert(encode_utf8(tail@)[2] == b[6]);
                    } else {
                        vstd::utf8::is_char_boundary_start_end_of_seq(encode_utf8(tail@));
                    }
                }
                let (command, payload) = tail.split_at(2);
                proof {
                    let b = data@;
                    vstd::utf8::encode_utf8_decode_utf8(header@);
                    vstd::utf8::encode_utf8_decode_utf8(command@);
                    vstd::utf8::encode_utf8_decode_utf8(payload@);
                    assert(encode_utf8(command@) =~= b.subrange(4, 6));
                    assert(encode_utf8(payload@) =~= b.subrange(6, b.len() as int));
                }
                Ok(Some(ThalesMessage { header: header.to_owned(), command: command.to_owned(), payload: payload.to_owned() }))
            },
        }
    }

    /// Appends the frame of `item` to `dst`; a message over 65535 bytes is
    /// refused and nothing is written.
    pub fn encode(&mut self, item: ThalesMessage, dst: &mut Vec<u8>) -> (r: Result<(), ThalesEncodeError>)
        ensures
            r is Ok <==> thales_fits(item@),
            r is Ok ==> final(dst)@ == old(dst)@ + thales_encoding(item@),
            r is Err ==> final(dst)@ == old(dst)@,
    {
        let h = string_bytes(&item.header);
        let c = string_bytes(&item.command);
        let p = string_bytes(&item.payload);
        if h.len() > 65535 || c.len() > 65535 || p.len() > 65535 {
            return Err(ThalesEncodeError::TooLong);
        }
        let total = h.len() + c.len() + p.len();
        if total > 65535 {
            return Err(ThalesEncodeError::TooLong);
        }
        let hi = (total / 256) as u8;
        let lo = (total % 256) as u8;
        append_bytes(dst, &[hi, lo]);
        append_bytes(dst, h);
        append_bytes(dst, c);
        append_bytes(dst, p);
        assert(final(dst)@ =~= old(dst)@ + thales_encoding(item@));
        Ok(())
    }
}

/// What the HSM codec writes it reads back: a message with a four-byte
/// header and a two-byte command that fits a frame is decoded from its frame
/// unchanged, and the bytes after the frame stay buffered.
pub proof fn law_thales_roundtrip(m: ThalesView, rest: Seq<u8>)
    requires
        encode_utf8(m.header).len() == 4,
        encode_utf8(m.command).len() == 2,
        thales_fits(m),
    ensures
        thales_sliceable(thales_encoding(m) + rest),
        thales_decode_spec(thales_encoding(m) + rest) == ThalesOutcome::Message(m),
        thales_rest(thales_encoding(m) + rest) == rest,
{
    let h = encode_utf8(m.header);
    let c = encode_utf8(m.command);
    let p = encode_utf8(m.payload);
    let body = h + c + p;
    let src = thales_encoding(m) + rest;
    let n = body.len();
    assert(be16(src[0], src[1]) == n) by {
        assert(src[0] == (n / 256) as u8);
        assert(src[1] == (n % 256) as u8);
    }
    assert(src.subrange(2, 2 + n as int) =~= body);
    assert(src.subrange(2 + n as int, src.len() as int) =~= rest);
    vstd::utf8::encode_utf8_valid_utf8(m.header);
    vstd::utf8::encode_utf8_valid_utf8(m.command);
    vstd::utf8::encode_utf8_valid_utf8(m.payload);
    vstd::utf8::valid_utf8_concat(h, c);
    vstd::utf8::valid_utf8_concat(h + c, p);
    assert(body.subrange(0, 4) =~= h);
    assert(body.subrange(4, 6) =~= c);
    assert(body.subrange(6, body.len() as int) =~= p);
    vstd::utf8::encode_utf8_decode_utf8(m.header);
    vstd::utf8::encode_utf8_decode_utf8(m.command);
    vstd::utf8::encode_utf8_decode_utf8(m.payload);
    assert(is_char_boundary(body, 4) && is_char_boundary(body, 6)) by {
        vstd::utf8::valid_utf8_concat(c, p);
        lemma_concat_boundary(h, c + p);
        assert(body =~= h + (c + p));
        lemma_concat_boundary(h + c, p);
        assert(body =~= (h + c) + p);
    }
}

/// Joining two valid UTF-8 strings leaves a character boundary at the seam.
proof fn lemma_concat_boundary(a: Seq<u8>, b: Seq<u8>)
    requires
        valid_utf8(a),
        valid_utf8(b),
    ensures
        valid_utf8(a + b),
        is_char_boundary(a + b, a.len() as int),
    decreases a.len(),
{
    vstd::utf8::valid_utf8_concat(a, b);
    if a.len() > 0 {
        reveal_with_fuel(valid_utf8, 2);
        let k = vstd::utf8::length_of_first_scalar(a);
        let ab = a + b;
        assert(vstd::utf8::pop_first_scalar(ab) =~= vstd::utf8::pop_first_scalar(a) + b) by {
            assert(vstd::utf8::length_of_first_scalar(ab) == k);
        }
        lemma_concat_boundary(vstd::utf8::pop_first_scalar(a), b);
        assert(vstd::utf8::length_of_first_scalar(ab) == k);
    } else {
        assert(a + b =~= b);
    }
}

} // verus!
