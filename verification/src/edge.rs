//! The edges of the switch: the store-and-forward rules of the upstream
//! links, the reversal sent when an acquirer's connection drops, the
//! network-management probes, the wallet-token test transaction and the raw
//! injection of hex-encoded messages.
use vstd::prelude::*;
use vstd::string::StringExecFns;
use vstd::utf8::encode_utf8;
use crate::canonical::{
    EventView, LocalDate, LocalTime, MessageClass, ProcessingCode, ResponseCode, Rrn, Stan, UniversalPaymentEvent,
};
use crate::dialect::{blank_event, blank_event_of, universal_encode, universal_encodes};
use crate::framing::{framed, length_prefixed};
use crate::numeric::zero_padded;
use crate::proto::text_bytes;
use crate::text::{ascii_chars, ascii_text, bytes_equal, bytes_to_vec, string_bytes, to_text};

verus! {

/// An MTI whose message is kept for store-and-forward when its link is down:
/// a reversal advice `0420` or a financial advice `0220` (read as text).
pub open spec fn saf_mti(mti: Seq<u8>) -> bool {
    text_bytes(mti) == seq![48u8, 52u8, 50u8, 48u8] || text_bytes(mti) == seq![48u8, 50u8, 50u8, 48u8]
}

/// Whether a message with this MTI is stored and forwarded later.
pub fn saf_eligible(mti: &[u8]) -> (r: bool)
    ensures
        r == saf_mti(mti@),
{
    let text = to_text(mti);
    let b = string_bytes(&text);
    bytes_equal(b, &[48u8, 52u8, 50u8, 48u8]) || bytes_equal(b, &[48u8, 50u8, 50u8, 48u8])
}

/// The store-and-forward key of a message: `stan-rrn`.
pub fn saf_key(stan: &str, rrn: &str) -> (k: String)
    ensures
        k@ == stan@ + seq!['-'] + rrn@,
{
    let mut k = String::from_str(stan);
    proof {
        reveal_strlit("-");
    }
    k.append("-");
    k.append(rrn);
    k
}

/// The reversal sent upstream when the acquirer's connection drops before
/// the bank answers: the same transaction as a `0420`.
pub fn drop_reversal(tx: &UniversalPaymentEvent) -> (r: UniversalPaymentEvent)
    ensures
        r@ == (EventView { mti: seq![48u8, 52u8, 50u8, 48u8], ..tx@ }),
{
    let mut r = tx.duplicate();
    r.mti = bytes_to_vec(&[48u8, 52u8, 50u8, 48u8]);
    assert(r@ =~= (EventView { mti: seq![48u8, 52u8, 50u8, 48u8], ..tx@ }));
    r
}

/// What a request to an upstream bank carries: the MTI, its class and the
/// RRN; the other fields stay with the switch.
pub open spec fn upstream_event(e: EventView) -> EventView {
    EventView { rrn: e.rrn, ..blank_event(e.mti, e.message_class) }
}

/// The message sent to an upstream bank for `tx`: its MTI, the bitmap and
/// the RRN (field 37), in the universal layout the upstream links speak.
pub fn upstream_message(tx: &UniversalPaymentEvent) -> (r: Vec<u8>)
    ensures
        universal_encodes(upstream_event(tx@), r@),
{
    let mut ev = blank_event_of(bytes_to_vec(tx.mti.as_slice()), tx.message_class);
    ev.rrn = Rrn(tx.rrn.0.clone());
    assert(ev@ =~= upstream_event(tx@));
    match universal_encode(&ev) {
        Ok(raw) => raw,
        Err(_) => {
            assert(false);
            Vec::new()
        },
    }
}

/// The upstream request of an authorization is 24 bytes: a four-byte MTI,
/// the eight-byte bitmap and the twelve-byte RRN field.
pub proof fn law_upstream_frame_size(e: EventView, raw: Seq<u8>)
    requires
        e.mti.len() == 4,
        e.rrn.len() > 0,
        !(crate::dialect::starts_02(e.mti) && e.message_class == MessageClass::Financial),
        universal_encodes(upstream_event(e), raw),
    ensures
        raw.len() == 24,
        raw.subrange(0, 4) == e.mti,
{
    let u = upstream_event(e);
    let f = crate::dialect::universal_field_bytes(u, 37);
    assert(f.len() == 12);
    assert(crate::dialect::universal_payload(u) =~= f);
    assert(raw.len() - 12 == raw.subrange(12, raw.len() as int).len());
}

/// The bytes of an ASCII text.
pub open spec fn ascii_bytes(s: Seq<char>) -> Seq<u8> {
    s.map_values(|c: char| c as u8)
}

/// The `0800` echo probe sent to a node, numbered `probe_id`: STAN the id's
/// last six digits, RRN `PING` and the id in at least eight digits.
pub open spec fn probe_event(probe_id: u64) -> EventView {
    EventView {
        fpan: ascii_bytes("0000000000000000"@),
        processing_code: "000000"@,
        stan: ascii_chars(zero_padded((probe_id % 1_000_000) as nat, 6)),
        local_time: "120000"@,
        local_date: "1231"@,
        rrn: "PING"@ + ascii_chars(zero_padded(probe_id as nat, 8)),
        response_code: "00"@,
        acquirer_id: ascii_bytes("SWITCH"@),
        ..blank_event(seq![48u8, 56u8, 48u8, 48u8], MessageClass::NetworkManagement)
    }
}

fn digits_string(n: u64, width: usize) -> (r: String)
    ensures
        r@ == ascii_chars(zero_padded(n as nat, width as nat)),
{
    let d = crate::numeric::zero_padded_text(n, width);
    proof {
        crate::numeric::lemma_zero_padded_parses(n as nat, width as nat);
        assert(crate::text::all_ascii(d@)) by {
            assert forall|i: int| 0 <= i < d@.len() implies #[trigger] d@[i] < 128 by {
                assert(crate::numeric::is_digit(d@[i]));
            }
        }
    }
    ascii_text(d.as_slice())
}

/// The echo probe numbered `probe_id`.
pub fn probe_transaction(probe_id: u64) -> (r: UniversalPaymentEvent)
    ensures
        r@ == probe_event(probe_id),
{
    proof {
        reveal_strlit("0000000000000000");
        reveal_strlit("SWITCH");
    }
    let mut tx = blank_event_of(bytes_to_vec(&[48u8, 56u8, 48u8, 48u8]), MessageClass::NetworkManagement);
    tx.fpan = bytes_to_vec(&[48u8, 48u8, 48u8, 48u8, 48u8, 48u8, 48u8, 48u8, 48u8, 48u8, 48u8, 48u8, 48u8, 48u8, 48u8, 48u8]);
    tx.processing_code = ProcessingCode(String::from_str("000000"));
    tx.stan = Stan(digits_string(probe_id % 1_000_000, 6));
    tx.local_time = LocalTime(String::from_str("120000"));
    tx.local_date = LocalDate(String::from_str("1231"));
    let mut rrn = String::from_str("PING");
    rrn.append(digits_string(probe_id, 8).as_str());
    tx.rrn = Rrn(rrn);
    tx.response_code = ResponseCode(String::from_str("00"));
    tx.acquirer_id = bytes_to_vec(&[83u8, 87u8, 73u8, 84u8, 67u8, 72u8]);
    assert(tx@ =~= probe_event(probe_id));
    tx
}

/// The wallet-token test authorization: a tokenized `0100` of 8500 on the
/// device PAN `4000000000009999`, with its cryptogram.
pub open spec fn apple_pay_event() -> EventView {
    EventView {
        fpan: ascii_bytes("4000000000009999"@),
        is_tokenized: true,
        tavv_cryptogram: Some("AABBCCDDEEFF0011"@),
        processing_code: "000000"@,
        amount: 8500,
        stan: "654321"@,
        local_time: "140230"@,
        local_date: "0414"@,
        rrn: "000123456789"@,
        response_code: ""@,
        acquirer_id: ascii_bytes("400123"@),
        ..blank_event(seq![48u8, 49u8, 48u8, 48u8], MessageClass::Authorization)
    }
}

/// The wallet-token test authorization.
pub fn apple_pay_transaction() -> (r: UniversalPaymentEvent)
    ensures
        r@ == apple_pay_event(),
{
    proof {
        reveal_strlit("4000000000009999");
        reveal_strlit("400123");
        reveal_strlit("");
    }
    let mut tx = blank_event_of(bytes_to_vec(&[48u8, 49u8, 48u8, 48u8]), MessageClass::Authorization);
    tx.fpan = bytes_to_vec(&[52u8, 48u8, 48u8, 48u8, 48u8, 48u8, 48u8, 48u8, 48u8, 48u8, 48u8, 48u8, 57u8, 57u8, 57u8, 57u8]);
    tx.is_tokenized = true;
    tx.tavv_cryptogram = Some(String::from_str("AABBCCDDEEFF0011"));
    tx.processing_code = ProcessingCode(String::from_str("000000"));
    tx.amount = 8500;
    tx.stan = Stan(String::from_str("654321"));
    tx.local_time = LocalTime(String::from_str("140230"));
    tx.local_date = LocalDate(String::from_str("0414"));
    tx.rrn = Rrn(String::from_str("000123456789"));
    tx.response_code = ResponseCode(String::from_str(""));
    tx.acquirer_id = bytes_to_vec(&[52u8, 48u8, 48u8, 49u8, 50u8, 51u8]);
    assert(tx@ =~= apple_pay_event());
    tx
}

/// The value of a hexadecimal digit, either case.
pub open spec fn hex_value(c: u8) -> Option<u8> {
    if 65 <= c <= 70 {
        Some((c - 55) as u8)
    } else if 97 <= c <= 102 {
        Some((c - 87) as u8)
    } else if 48 <= c <= 57 {
        Some((c - 48) as u8)
    } else {
        None
    }
}

/// The bytes a hexadecimal text stands for: two digits a byte, high digit
/// first; `None` for an odd length or a character that is not a digit.
pub open spec fn hex_decoded(s: Seq<u8>) -> Option<Seq<u8>>
    decreases s.len(),
{
    if s.len() % 2 != 0 {
        None
    } else if s.len() == 0 {
        Some(Seq::empty())
    } else {
        match (hex_value(s[0]), hex_value(s[1]), hex_decoded(s.subrange(2, s.len() as int))) {
            (Some(h), Some(l), Some(rest)) => Some(seq![(h * 16 + l) as u8] + rest),
            _ => None,
        }
    }
}

/// Decodes hexadecimal text (`hex::decode`).  Claimed of the crate's
/// function, as its source shows: an odd length or a character outside
/// `0-9`, `a-f`, `A-F` is refused, and otherwise each pair of digits gives
/// one byte, high digit first.  The crate's error value is dropped.
#[verifier::external_body]
fn hex_decode(s: &str) -> (r: Option<Vec<u8>>)
    ensures
        match hex_decoded(encode_utf8(s@)) {
            Some(b) => r matches Some(v) && v@ == b,
            None => r is None,
        },
{
    hex::decode(s).ok()
}

/// The frame an operator's hex-encoded message is injected as: the decoded
/// bytes with their length; `None` when the text is not hexadecimal.
pub fn inject_frame(hex_text: &str) -> (r: Option<Vec<u8>>)
    ensures
        match hex_decoded(encode_utf8(hex_text@)) {
            Some(b) => r matches Some(v) && v@ == framed(b),
            None => r is None,
        },
{
    match hex_decode(hex_text) {
        Some(bytes) => Some(length_prefixed(bytes.as_slice())),
        None => None,
    }
}

} // verus!
