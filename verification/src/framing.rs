//! Length-prefixed framing of ISO 8583 messages on a TCP stream: a two-byte
//! big-endian length, then the message.
use vstd::prelude::*;
use vstd::utf8::encode_utf8;
use crate::canonical::Transaction;
use crate::numeric::{append_bytes, append_repeat, repeat_byte};
use crate::text::string_bytes;

verus! {

/// A big-endian 16-bit length.
pub open spec fn be16(hi: u8, lo: u8) -> nat {
    hi as nat * 256 + lo as nat
}

/// The frame at the front of `src`, and what follows it, once it is fully buffered.
pub open spec fn frame_split(src: Seq<u8>) -> Option<(Seq<u8>, Seq<u8>)> {
    if src.len() < 2 {
        None
    } else {
        let n = be16(src[0], src[1]);
        if src.len() < 2 + n {
            None
        } else {
            Some((src.subrange(2, 2 + n as int), src.subrange(2 + n as int, src.len() as int)))
        }
    }
}

/// The frame of `item`: its length modulo 65536, big-endian, then the item.
pub open spec fn framed(item: Seq<u8>) -> Seq<u8> {
    let n = item.len() % 65536;
    seq![(n / 256) as u8, (n % 256) as u8] + item
}

/// The ISO 8583 stream codec.
pub struct Iso8583Codec;

impl Iso8583Codec {
    /// Takes the next message out of the buffer, once it is fully buffered.
    pub fn decode(&mut self, src: &mut Vec<u8>) -> (r: Option<Vec<u8>>)
        ensures
            match frame_split(old(src)@) {
                None => r is None && final(src)@ == old(src)@,
                Some((data, rest)) => r matches Some(d) && d@ == data && final(src)@ == rest,
            },
    {
        if src.len() < 2 {
            return None;
        }
        let n = (src[0] as usize) * 256 + (src[1] as usize);
        if src.len() - 2 < n {
            return None;
        }
        let ghost whole = src@;
        let mut frame = src.split_off(2 + n);
        std::mem::swap(src, &mut frame);
        let data = crate::text::bytes_to_vec(&frame.as_slice()[2..2 + n]);
        assert(data@ =~= whole.subrange(2, 2 + n as int));
        Some(data)
    }

    /// Appends the frame of `item` to `dst`.  The length is written modulo
    /// 65536.
    pub fn encode(&mut self, item: &[u8], dst: &mut Vec<u8>)
        ensures
            final(dst)@ == old(dst)@ + framed(item@),
    {
        let len = (item.len() % 65536) as u16;
        append_bytes(dst, &[(len / 256) as u8, (len % 256) as u8]);
        append_bytes(dst, item);
        assert(final(dst)@ =~= old(dst)@ + framed(item@));
    }
}

/// The frame of `payload`, as a new buffer.
pub fn length_prefixed(payload: &[u8]) -> (r: Vec<u8>)
    ensures
        r@ == framed(payload@),
{
    let mut r: Vec<u8> = Vec::new();
    let mut codec = Iso8583Codec;
    codec.encode(payload, &mut r);
    assert(r@ =~= framed(payload@));
    r
}

/// A framed message is read back whole: for a message of at most 65535
/// bytes, the codec decodes its frame to the message and leaves the bytes
/// after it buffered.
pub proof fn law_frame_roundtrip(item: Seq<u8>, rest: Seq<u8>)
    requires
        item.len() <= 65535,
    ensures
        frame_split(framed(item) + rest) == Some((item, rest)),
{
    let src = framed(item) + rest;
    assert(be16(src[0], src[1]) == item.len());
    assert(src.subrange(2, 2 + item.len() as int) =~= item);
    assert(src.subrange(2 + item.len() as int, src.len() as int) =~= rest);
}

/// A record that can be written as an ISO 8583 message.
pub trait IsoAdapter {
    /// The message's bytes.
    spec fn iso8583_bytes(&self) -> Seq<u8>;

    fn to_iso8583(&self) -> (r: Vec<u8>)
        ensures
            r@ == self.iso8583_bytes(),
    ;
}

impl IsoAdapter for Transaction {
    /// A journal record as a message: its MTI, then a bitmap of eight `0xFF` bytes.
    open spec fn iso8583_bytes(&self) -> Seq<u8> {
        encode_utf8(self.mti@) + repeat_byte(0xFFu8, 8)
    }

    fn to_iso8583(&self) -> (r: Vec<u8>) {
        let mut bytes: Vec<u8> = Vec::new();
        append_bytes(&mut bytes, string_bytes(&self.mti));
        append_repeat(&mut bytes, 0xFFu8, 8);
        assert(bytes@ =~= encode_utf8(self.mti@) + repeat_byte(0xFFu8, 8));
        bytes
    }
}

} // verus!
