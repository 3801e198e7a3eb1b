//! The universal ISO 8583 codec that the Base24 and Connex dialects share: a
//! 4-byte MTI, one 8-byte bitmap and the fields 2, 3, 4, 11, 12, 13, 32, 37,
//! 39 and 52.
use vstd::prelude::*;
use vstd::utf8::encode_utf8;
use crate::canonical::{
    class_of_mti, message_class_of, EventView, LocalDate, LocalTime, MessageClass, ProcessingCode,
    ResponseCode, Rrn, Stan, TransactionType, UniversalPaymentEvent,
};
use crate::iso_fields::{
    bit_is_set, is_bit_set, read_fixed, read_llvar, set_bit, spec_fixed, spec_read_fixed,
    spec_read_var, spec_var, write_fixed, write_llvar, ParseError,
};
use crate::numeric::{append_bytes, parse_bounded, parse_u64, zero_padded, zero_padded_text};
use crate::text::{bytes_start_with, bytes_to_vec, decode_lossy, string_bytes, to_text};

verus! {

/// An event with only its MTI and message class set.
pub open spec fn blank_event(mti: Seq<u8>, class: MessageClass) -> EventView {
    EventView {
        message_class: class,
        transaction_type: TransactionType::Purchase,
        mti: mti,
        fpan: Seq::empty(),
        dpan: None,
        is_tokenized: false,
        tavv_cryptogram: None,
        processing_code: Seq::empty(),
        amount: 0,
        stan: Seq::empty(),
        local_time: Seq::empty(),
        local_date: Seq::empty(),
        rrn: Seq::empty(),
        response_code: Seq::empty(),
        acquirer_id: Seq::empty(),
        pin_block: Seq::empty(),
        risk_score: 0,
        requires_instant_clearing: false,
        domestic_settlement_data: None,
        source_account: None,
        destination_account: None,
        original_data_elements: None,
        mac_data: None,
        is_reversal: false,
    }
}

/// The amount field's text read as a number, 0 when it is not one.
pub open spec fn amount_of(field: Seq<u8>) -> u64 {
    match parse_bounded(encode_utf8(decode_lossy(field)), u64::MAX as nat) {
        Some(v) => v as u64,
        None => 0,
    }
}

/// Reading field `f` at `off` into `ev`.
pub open spec fn universal_step(raw: Seq<u8>, f: int, off: int, ev: EventView) -> Result<(int, EventView), ParseError> {
    if f == 2 {
        match spec_read_var(raw, off, 2) {
            Ok((v, n)) => Ok((n, EventView { fpan: v, ..ev })),
            Err(e) => Err(e),
        }
    } else if f == 3 {
        match spec_read_fixed(raw, off, 6) {
            Ok((v, n)) => Ok((n, EventView { processing_code: decode_lossy(v), ..ev })),
            Err(e) => Err(e),
        }
    } else if f == 4 {
        match spec_read_fixed(raw, off, 12) {
            Ok((v, n)) => Ok((n, EventView { amount: amount_of(v), ..ev })),
            Err(e) => Err(e),
        }
    } else if f == 11 {
        match spec_read_fixed(raw, off, 6) {
            Ok((v, n)) => Ok((n, EventView { stan: decode_lossy(v), ..ev })),
            Err(e) => Err(e),
        }
    } else if f == 12 {
        match spec_read_fixed(raw, off, 6) {
            Ok((v, n)) => Ok((n, EventView { local_time: decode_lossy(v), ..ev })),
            Err(e) => Err(e),
        }
    } else if f == 13 {
        match spec_read_fixed(raw, off, 4) {
            Ok((v, n)) => Ok((n, EventView { local_date: decode_lossy(v), ..ev })),
            Err(e) => Err(e),
        }
    } else if f == 32 {
        match spec_read_var(raw, off, 2) {
            Ok((v, n)) => Ok((n, EventView { acquirer_id: v, ..ev })),
            Err(e) => Err(e),
        }
    } else if f == 37 {
        match spec_read_fixed(raw, off, 12) {
            Ok((v, n)) => Ok((n, EventView { rrn: decode_lossy(v), ..ev })),
            Err(e) => Err(e),
        }
    } else if f == 39 {
        match spec_read_fixed(raw, off, 2) {
            Ok((v, n)) => Ok((n, EventView { response_code: decode_lossy(v), ..ev })),
            Err(e) => Err(e),
        }
    } else if f == 52 {
        match spec_read_fixed(raw, off, 16) {
            Ok((v, n)) => Ok((n, EventView { pin_block: v, ..ev })),
            Err(e) => Err(e),
        }
    } else {
        Ok((off, ev))
    }
}

/// Reading the fields `f..=64` that `bitmap` flags, from `off` on; a flagged
/// field whose data runs past the end is a length error.
pub open spec fn universal_walk(raw: Seq<u8>, bitmap: Seq<u8>, f: int, off: int, ev: EventView) -> Result<EventView, ParseError>
    decreases 65 - f,
{
    if f > 64 {
        Ok(ev)
    } else if bit_is_set(bitmap, f) {
        match universal_step(raw, f, off, ev) {
            Ok((n, e2)) => universal_walk(raw, bitmap, f + 1, n, e2),
            Err(e) => Err(e),
        }
    } else {
        universal_walk(raw, bitmap, f + 1, off, ev)
    }
}

/// A message that is only an MTI and a bitmap decodes, whatever the bitmap
/// flags, to the blank event of its MTI and that MTI's class.
pub proof fn law_bare_header_decodes(raw: Seq<u8>)
    requires
        raw.len() == 12,
    ensures
        spec_universal_decode(raw) == Ok::<EventView, ParseError>(
            blank_event(raw.subrange(0, 4), class_of_mti(raw.subrange(0, 4))),
        ),
{
}

/// What decoding `raw` gives: a length error for less than an MTI and a
/// bitmap; the blank event of the MTI when nothing follows the bitmap, as a
/// bare header carries no fields whatever its bitmap flags; otherwise the
/// flagged fields read in order.
pub open spec fn spec_universal_decode(raw: Seq<u8>) -> Result<EventView, ParseError> {
    if raw.len() < 12 {
        Err(ParseError::LengthError)
    } else if raw.len() == 12 {
        let mti = raw.subrange(0, 4);
        Ok(blank_event(mti, class_of_mti(mti)))
    } else {
        let mti = raw.subrange(0, 4);
        universal_walk(raw, raw.subrange(4, 12), 1, 12, blank_event(mti, class_of_mti(mti)))
    }
}

fn decode_field(raw: &[u8], field: usize, offset: &mut usize, tx: &mut UniversalPaymentEvent) -> (r: Result<(), ParseError>)
    requires
        *old(offset) <= raw@.len(),
    ensures
        match universal_step(raw@, field as int, *old(offset) as int, old(tx)@) {
            Ok((n, e2)) => r is Ok && *final(offset) == n && final(tx)@ == e2,
            Err(e) => r == Err::<(), ParseError>(e),
        },
        *final(offset) <= raw@.len(),
{
    if field == 2 {
        let v = read_llvar(raw, offset)?;
        tx.fpan = bytes_to_vec(v);
    } else if field == 3 {
        let v = read_fixed(raw, offset, 6)?;
        tx.processing_code = ProcessingCode(to_text(v));
    } else if field == 4 {
        let v = read_fixed(raw, offset, 12)?;
        let text = to_text(v);
        tx.amount = match parse_u64(string_bytes(&text)) {
            Some(a) => a,
            None => 0,
        };
    } else if field == 11 {
        let v = read_fixed(raw, offset, 6)?;
        tx.stan = Stan(to_text(v));
    } else if field == 12 {
        let v = read_fixed(raw, offset, 6)?;
        tx.local_time = LocalTime(to_text(v));
    } else if field == 13 {
        let v = read_fixed(raw, offset, 4)?;
        tx.local_date = LocalDate(to_text(v));
    } else if field == 32 {
        let v = read_llvar(raw, offset)?;
        tx.acquirer_id = bytes_to_vec(v);
    } else if field == 37 {
        let v = read_fixed(raw, offset, 12)?;
        tx.rrn = Rrn(to_text(v));
    } else if field == 39 {
        let v = read_fixed(raw, offset, 2)?;
        tx.response_code = ResponseCode(to_text(v));
    } else if field == 52 {
        let v = read_fixed(raw, offset, 16)?;
        tx.pin_block = bytes_to_vec(v);
    }
    Ok(())
}

/// An event with only its MTI and message class set.
pub fn blank_event_of(mti: Vec<u8>, class: MessageClass) -> (r: UniversalPaymentEvent)
    ensures
        r@ == blank_event(mti@, class),
{
    UniversalPaymentEvent {
        message_class: class,
        transaction_type: TransactionType::Purchase,
        mti,
        fpan: Vec::new(),
        dpan: None,
        is_tokenized: false,
        tavv_cryptogram: None,
        processing_code: ProcessingCode(String::new()),
        amount: 0,
        stan: Stan(String::new()),
        local_time: LocalTime(String::new()),
        local_date: LocalDate(String::new()),
        rrn: Rrn(String::new()),
        response_code: ResponseCode(String::new()),
        acquirer_id: Vec::new(),
        pin_block: Vec::new(),
        risk_score: 0,
        requires_instant_clearing: false,
        domestic_settlement_data: None,
        source_account: None,
        destination_account: None,
        original_data_elements: None,
        mac_data: None,
        is_reversal: false,
    }
}

/// Decodes a message in the universal layout.
pub fn universal_decode(raw: &[u8]) -> (r: Result<UniversalPaymentEvent, ParseError>)
    ensures
        match spec_universal_decode(raw@) {
            Ok(e) => r matches Ok(t) && t@ == e,
            Err(e) => r matches Err(x) && x == e,
        },
{
    if raw.len() < 12 {
        return Err(ParseError::LengthError);
    }
    let mut offset: usize = 0;
    let mti = read_fixed(raw, &mut offset, 4)?;
    let bitmap = read_fixed(raw, &mut offset, 8)?;
    let mti_bytes = bytes_to_vec(mti);
    let class = message_class_of(mti);
    let mut tx = blank_event_of(mti_bytes, class);
    if raw.len() == 12 {
        return Ok(tx);
    }
    let ghost bm = raw@.subrange(4, 12);
    let ghost start = blank_event(raw@.subrange(0, 4), class_of_mti(raw@.subrange(0, 4)));
    assert(bitmap@ == bm);
    let mut field: usize = 1;
    while field <= 64
        invariant
            1 <= field <= 65,
            offset <= raw@.len(),
            raw@.len() > 12,
            bitmap@ == bm,
            bm == raw@.subrange(4, 12),
            start == blank_event(raw@.subrange(0, 4), class_of_mti(raw@.subrange(0, 4))),
            universal_walk(raw@, bm, field as int, offset as int, tx@) == universal_walk(raw@, bm, 1, 12, start),
        decreases 65 - field,
    {
        if is_bit_set(bitmap, field) {
            let ghost off0 = offset;
            let ghost tx0 = tx@;
            assert(universal_walk(raw@, bm, field as int, off0 as int, tx0) == universal_walk(raw@, bm, 1, 12, start));
            match decode_field(raw, field, &mut offset, &mut tx) {
                Ok(()) => {},
                Err(e) => {
                    assert(universal_walk(raw@, bm, field as int, off0 as int, tx0) == Err::<EventView, ParseError>(e));
                    assert(spec_universal_decode(raw@) == Err::<EventView, ParseError>(e));
                    return Err(e);
                },
            }
        }
        field = field + 1;
    }
    Ok(tx)
}

/// `s` begins with the two characters `0 2`.
pub open spec fn starts_02(s: Seq<u8>) -> bool {
    s.len() >= 2 && s[0] == 48u8 && s[1] == 50u8
}

/// The amount field is written: a nonzero amount, or a financial `02xx` message.
pub open spec fn amount_written(e: EventView) -> bool {
    e.amount > 0 || (starts_02(e.mti) && e.message_class == MessageClass::Financial)
}

/// Field `f` is written when encoding `e`.
pub open spec fn universal_present(e: EventView, f: int) -> bool {
    if f == 2 {
        e.fpan.len() > 0
    } else if f == 3 {
        e.processing_code.len() > 0
    } else if f == 4 {
        amount_written(e)
    } else if f == 11 {
        e.stan.len() > 0
    } else if f == 12 {
        e.local_time.len() > 0
    } else if f == 13 {
        e.local_date.len() > 0
    } else if f == 32 {
        e.acquirer_id.len() > 0
    } else if f == 37 {
        e.rrn.len() > 0
    } else if f == 39 {
        e.response_code.len() > 0
    } else if f == 52 {
        e.pin_block.len() > 0
    } else {
        false
    }
}

/// `s` when `present`, else nothing.
pub open spec fn seg(present: bool, s: Seq<u8>) -> Seq<u8> {
    if present { s } else { Seq::empty() }
}

/// The encoding of field `f` of `e`, when the field is written.
pub open spec fn universal_field_bytes(e: EventView, f: int) -> Seq<u8> {
    if f == 2 {
        spec_var(e.fpan, 2)
    } else if f == 3 {
        spec_fixed(encode_utf8(e.processing_code), 6, 48u8, false)
    } else if f == 4 {
        spec_fixed(zero_padded(e.amount as nat, 12), 12, 48u8, false)
    } else if f == 11 {
        spec_fixed(encode_utf8(e.stan), 6, 48u8, false)
    } else if f == 12 {
        spec_fixed(encode_utf8(e.local_time), 6, 48u8, false)
    } else if f == 13 {
        spec_fixed(encode_utf8(e.local_date), 4, 48u8, false)
    } else if f == 32 {
        spec_var(e.acquirer_id, 2)
    } else if f == 37 {
        spec_fixed(encode_utf8(e.rrn), 12, 32u8, true)
    } else if f == 39 {
        spec_fixed(encode_utf8(e.response_code), 2, 32u8, false)
    } else if f == 52 {
        spec_fixed(e.pin_block, 16, 48u8, false)
    } else {
        Seq::empty()
    }
}

/// The data fields of `e`, in field order.
pub open spec fn universal_payload(e: EventView) -> Seq<u8> {
    seg(universal_present(e, 2), universal_field_bytes(e, 2))
        + seg(universal_present(e, 3), universal_field_bytes(e, 3))
        + seg(universal_present(e, 4), universal_field_bytes(e, 4))
        + seg(universal_present(e, 11), universal_field_bytes(e, 11))
        + seg(universal_present(e, 12), universal_field_bytes(e, 12))
        + seg(universal_present(e, 13), universal_field_bytes(e, 13))
        + seg(universal_present(e, 32), universal_field_bytes(e, 32))
        + seg(universal_present(e, 37), universal_field_bytes(e, 37))
        + seg(universal_present(e, 39), universal_field_bytes(e, 39))
        + seg(universal_present(e, 52), universal_field_bytes(e, 52))
}

/// The MTI written for `m`: its first four bytes, or `0110` when it is shorter.
pub open spec fn mti_out(m: Seq<u8>) -> Seq<u8> {
    if m.len() >= 4 {
        m.subrange(0, 4)
    } else {
        seq![48u8, 49u8, 49u8, 48u8]
    }
}

/// `bm` is `n` bytes whose bits flag exactly the fields `present` names.
pub open spec fn bitmap_flags(bm: Seq<u8>, n: nat, present: spec_fn(int) -> bool) -> bool {
    &&& bm.len() == n
    &&& forall|g: int| #[trigger] bit_is_set(bm, g) <==> (1 <= g <= n * 8 && present(g))
}

/// `raw` is the universal encoding of `e`: MTI, bitmap, then the written fields.
pub open spec fn universal_encodes(e: EventView, raw: Seq<u8>) -> bool {
    &&& raw.len() >= 12
    &&& raw.subrange(0, 4) == mti_out(e.mti)
    &&& bitmap_flags(raw.subrange(4, 12), 8, |g: int| universal_present(e, g))
    &&& raw.subrange(12, raw.len() as int) == universal_payload(e)
}

proof fn lemma_zero_bitmap(bm: Seq<u8>)
    requires
        forall|i: int| 0 <= i < bm.len() ==> bm[i] == 0,
    ensures
        forall|g: int| !#[trigger] bit_is_set(bm, g),
{
    assert forall|g: int| !#[trigger] bit_is_set(bm, g) by {
        if 1 <= g <= bm.len() * 8 {
            let m = crate::iso_fields::field_mask(g);
            let b = bm[(g - 1) / 8];
            assert(b == 0);
            assert((0u8 & m) == 0) by (bit_vector);
        }
    }
}

/// `n` zero bytes.
pub fn zero_bytes(n: usize) -> (r: Vec<u8>)
    ensures
        r@.len() == n,
        forall|i: int| 0 <= i < n ==> r@[i] == 0,
        forall|g: int| !#[trigger] bit_is_set(r@, g),
{
    let mut r: Vec<u8> = Vec::new();
    crate::numeric::append_repeat(&mut r, 0u8, n);
    proof {
        lemma_zero_bitmap(r@);
    }
    r
}

/// Whether field `f` of `tx` is written.
pub(crate) fn universal_is_present(tx: &UniversalPaymentEvent, f: usize) -> (r: bool)
    requires
        f == 2 || f == 3 || f == 4 || f == 11 || f == 12 || f == 13 || f == 32 || f == 37 || f == 39 || f == 52,
    ensures
        r == universal_present(tx@, f as int),
{
    let ghost e = tx@;
    proof {
        lemma_nonempty_encoding(e);
    }
    if f == 2 {
        tx.fpan.len() > 0
    } else if f == 3 {
        string_bytes(&tx.processing_code.0).len() > 0
    } else if f == 4 {
        let is_02 = bytes_start_with(tx.mti.as_slice(), &[48u8, 50u8]);
        proof {
            assert(is_02 == starts_02(e.mti)) by {
                if is_02 {
                    assert(e.mti.subrange(0, 2) =~= seq![48u8, 50u8]);
                    assert(e.mti[0] == e.mti.subrange(0, 2)[0]);
                    assert(e.mti[1] == e.mti.subrange(0, 2)[1]);
                } else if starts_02(e.mti) {
                    assert(e.mti.subrange(0, 2) =~= seq![48u8, 50u8]);
                }
            }
        }
        tx.amount > 0 || (is_02 && tx.message_class == MessageClass::Financial)
    } else if f == 11 {
        string_bytes(&tx.stan.0).len() > 0
    } else if f == 12 {
        string_bytes(&tx.local_time.0).len() > 0
    } else if f == 13 {
        string_bytes(&tx.local_date.0).len() > 0
    } else if f == 32 {
        tx.acquirer_id.len() > 0
    } else if f == 37 {
        string_bytes(&tx.rrn.0).len() > 0
    } else if f == 39 {
        string_bytes(&tx.response_code.0).len() > 0
    } else {
        tx.pin_block.len() > 0
    }
}

/// Appends the encoding of field `f` of `tx`.
pub(crate) fn write_universal_field(tx: &UniversalPaymentEvent, f: usize, payload: &mut Vec<u8>)
    requires
        f == 2 || f == 3 || f == 4 || f == 11 || f == 12 || f == 13 || f == 32 || f == 37 || f == 39 || f == 52,
    ensures
        final(payload)@ == old(payload)@ + universal_field_bytes(tx@, f as int),
{
    if f == 2 {
        write_llvar(payload, tx.fpan.as_slice());
    } else if f == 3 {
        write_fixed(payload, string_bytes(&tx.processing_code.0), 6, 48u8, false);
    } else if f == 4 {
        let amt = zero_padded_text(tx.amount, 12);
        write_fixed(payload, amt.as_slice(), 12, 48u8, false);
    } else if f == 11 {
        write_fixed(payload, string_bytes(&tx.stan.0), 6, 48u8, false);
    } else if f == 12 {
        write_fixed(payload, string_bytes(&tx.local_time.0), 6, 48u8, false);
    } else if f == 13 {
        write_fixed(payload, string_bytes(&tx.local_date.0), 4, 48u8, false);
    } else if f == 32 {
        write_llvar(payload, tx.acquirer_id.as_slice());
    } else if f == 37 {
        write_fixed(payload, string_bytes(&tx.rrn.0), 12, 32u8, true);
    } else if f == 39 {
        write_fixed(payload, string_bytes(&tx.response_code.0), 2, 32u8, false);
    } else {
        write_fixed(payload, tx.pin_block.as_slice(), 16, 48u8, false);
    }
}

/// Writes field `f` of `tx` into `payload` and flags it, when it is written.
fn encode_one(tx: &UniversalPaymentEvent, f: usize, bitmap: &mut Vec<u8>, payload: &mut Vec<u8>)
    requires
        old(bitmap)@.len() == 8,
        f == 2 || f == 3 || f == 4 || f == 11 || f == 12 || f == 13 || f == 32 || f == 37 || f == 39 || f == 52,
    ensures
        final(bitmap)@.len() == 8,
        forall|g: int| #[trigger] bit_is_set(final(bitmap)@, g) <==> ((g == f && universal_present(tx@, f as int)) || bit_is_set(old(bitmap)@, g)),
        final(payload)@ == old(payload)@ + seg(universal_present(tx@, f as int), universal_field_bytes(tx@, f as int)),
{
    let present = universal_is_present(tx, f);
    if !present {
        assert(payload@ =~= old(payload)@ + seg(universal_present(tx@, f as int), universal_field_bytes(tx@, f as int)));
        return;
    }
    set_bit(bitmap, f);
    write_universal_field(tx, f, payload);
}

/// Writes the fields of `tx` into `payload` and flags them in `bitmap`.
fn encode_fields(tx: &UniversalPaymentEvent, bitmap: &mut Vec<u8>, payload: &mut Vec<u8>)
    requires
        old(bitmap)@.len() == 8,
        forall|g: int| !#[trigger] bit_is_set(old(bitmap)@, g),
        old(payload)@.len() == 0,
    ensures
        bitmap_flags(final(bitmap)@, 8, |g: int| universal_present(tx@, g)),
        final(payload)@ == universal_payload(tx@),
{
    let ghost e = tx@;
    encode_one(tx, 2, bitmap, payload);
    encode_one(tx, 3, bitmap, payload);
    encode_one(tx, 4, bitmap, payload);
    encode_one(tx, 11, bitmap, payload);
    encode_one(tx, 12, bitmap, payload);
    encode_one(tx, 13, bitmap, payload);
    encode_one(tx, 32, bitmap, payload);
    encode_one(tx, 37, bitmap, payload);
    encode_one(tx, 39, bitmap, payload);
    encode_one(tx, 52, bitmap, payload);
    proof {
        assert(payload@ =~= universal_payload(e));
        assert forall|g: int| #[trigger] bit_is_set(bitmap@, g) <==> (1 <= g <= 8 * 8 && universal_present(e, g)) by {
            if universal_present(e, g) {
                assert(g == 2 || g == 3 || g == 4 || g == 11 || g == 12 || g == 13 || g == 32 || g == 37 || g == 39 || g == 52);
            }
        }
    }
}

/// A string is empty exactly when its UTF-8 encoding is.
pub proof fn lemma_encode_empty(s: Seq<char>)
    ensures
        (encode_utf8(s).len() == 0) == (s.len() == 0),
{
    if s.len() > 0 {
        vstd::utf8::encode_utf8_first_scalar(s);
    }
}

proof fn lemma_nonempty_encoding(e: EventView)
    ensures
        (encode_utf8(e.processing_code).len() > 0) == (e.processing_code.len() > 0),
        (encode_utf8(e.stan).len() > 0) == (e.stan.len() > 0),
        (encode_utf8(e.local_time).len() > 0) == (e.local_time.len() > 0),
        (encode_utf8(e.local_date).len() > 0) == (e.local_date.len() > 0),
        (encode_utf8(e.rrn).len() > 0) == (e.rrn.len() > 0),
        (encode_utf8(e.response_code).len() > 0) == (e.response_code.len() > 0),
{
    lemma_encode_empty(e.processing_code);
    lemma_encode_empty(e.stan);
    lemma_encode_empty(e.local_time);
    lemma_encode_empty(e.local_date);
    lemma_encode_empty(e.rrn);
    lemma_encode_empty(e.response_code);
}

/// Encodes `tx` in the universal layout.
pub fn universal_encode(tx: &UniversalPaymentEvent) -> (r: Result<Vec<u8>, ParseError>)
    ensures
        r matches Ok(raw) && universal_encodes(tx@, raw@),
{
    let mut bitmap = zero_bytes(8);
    let mut payload: Vec<u8> = Vec::new();
    encode_fields(tx, &mut bitmap, &mut payload);
    let mut data: Vec<u8> = Vec::new();
    if tx.mti.len() >= 4 {
        append_bytes(&mut data, &tx.mti.as_slice()[0..4]);
    } else {
        append_bytes(&mut data, &[48u8, 49u8, 49u8, 48u8]);
    }
    append_bytes(&mut data, bitmap.as_slice());
    append_bytes(&mut data, payload.as_slice());
    assert(data@.subrange(0, 4) =~= mti_out(tx@.mti));
    assert(data@.subrange(4, 12) =~= bitmap@);
    assert(data@.subrange(12, data@.len() as int) =~= payload@);
    Ok(data)
}


/// The fields of `e` that the universal layout carries fit it exactly: a
/// four-byte MTI, fixed fields empty or of their exact width, variable fields
/// of at most 99 bytes and an amount of at most twelve digits.
pub open spec fn universal_wf(e: EventView) -> bool {
    &&& e.mti.len() == 4
    &&& e.fpan.len() <= 99
    &&& e.acquirer_id.len() <= 99
    &&& (e.processing_code.len() == 0 || encode_utf8(e.processing_code).len() == 6)
    &&& (e.stan.len() == 0 || encode_utf8(e.stan).len() == 6)
    &&& (e.local_time.len() == 0 || encode_utf8(e.local_time).len() == 6)
    &&& (e.local_date.len() == 0 || encode_utf8(e.local_date).len() == 4)
    &&& (e.rrn.len() == 0 || encode_utf8(e.rrn).len() == 12)
    &&& (e.response_code.len() == 0 || encode_utf8(e.response_code).len() == 2)
    &&& (e.pin_block.len() == 0 || e.pin_block.len() == 16)
    &&& e.amount < 1_000_000_000_000
}

/// What the universal layout keeps of `e`: its fields, with the message
/// class its MTI gives and every other field at its default.
pub open spec fn universal_projection(e: EventView) -> EventView {
    EventView {
        fpan: e.fpan,
        processing_code: e.processing_code,
        amount: e.amount,
        stan: e.stan,
        local_time: e.local_time,
        local_date: e.local_date,
        acquirer_id: e.acquirer_id,
        rrn: e.rrn,
        response_code: e.response_code,
        pin_block: e.pin_block,
        ..blank_event(e.mti, class_of_mti(e.mti))
    }
}

/// The data fields of `e` before field `f`.
pub open spec fn universal_upto(e: EventView, f: int) -> Seq<u8>
    decreases f,
{
    if f <= 1 {
        Seq::empty()
    } else {
        universal_upto(e, f - 1) + seg(universal_present(e, f - 1), universal_field_bytes(e, f - 1))
    }
}

/// `e`'s field `f` copied into `ev`.
pub open spec fn universal_set(ev: EventView, e: EventView, f: int) -> EventView {
    if f == 2 {
        EventView { fpan: e.fpan, ..ev }
    } else if f == 3 {
        EventView { processing_code: e.processing_code, ..ev }
    } else if f == 4 {
        EventView { amount: e.amount, ..ev }
    } else if f == 11 {
        EventView { stan: e.stan, ..ev }
    } else if f == 12 {
        EventView { local_time: e.local_time, ..ev }
    } else if f == 13 {
        EventView { local_date: e.local_date, ..ev }
    } else if f == 32 {
        EventView { acquirer_id: e.acquirer_id, ..ev }
    } else if f == 37 {
        EventView { rrn: e.rrn, ..ev }
    } else if f == 39 {
        EventView { response_code: e.response_code, ..ev }
    } else if f == 52 {
        EventView { pin_block: e.pin_block, ..ev }
    } else {
        ev
    }
}

/// What decoding has made of `e` once the fields before `f` are read.
pub open spec fn universal_state(e: EventView, f: int) -> EventView
    decreases f,
{
    if f <= 1 {
        blank_event(e.mti, class_of_mti(e.mti))
    } else if universal_present(e, f - 1) {
        universal_set(universal_state(e, f - 1), e, f - 1)
    } else {
        universal_state(e, f - 1)
    }
}

proof fn lemma_upto_prefix(e: EventView, f: int, g: int)
    requires
        1 <= f <= g,
    ensures
        universal_upto(e, f).len() <= universal_upto(e, g).len(),
        universal_upto(e, g).subrange(0, universal_upto(e, f).len() as int) == universal_upto(e, f),
    decreases g - f,
{
    if f < g {
        lemma_upto_prefix(e, f, g - 1);
        let a = universal_upto(e, g - 1);
        let b = universal_upto(e, g);
        assert(b.subrange(0, a.len() as int) =~= a);
        assert(b.subrange(0, universal_upto(e, f).len() as int) =~= a.subrange(0, universal_upto(e, f).len() as int));
    } else {
        assert(universal_upto(e, g).subrange(0, universal_upto(e, g).len() as int) =~= universal_upto(e, g));
    }
}

proof fn lemma_upto_full(e: EventView)
    ensures
        universal_upto(e, 65) =~= universal_payload(e),
{
    let p = |f: int| seg(universal_present(e, f), universal_field_bytes(e, f));
    assert forall|f: int| 53 <= f <= 65 implies #[trigger] universal_upto(e, f) == universal_upto(e, 53) by {
        lemma_upto_same(e, 53, f);
    }
    assert(universal_upto(e, 53) =~= universal_upto(e, 52) + p(52));
    lemma_upto_same(e, 40, 52);
    assert(universal_upto(e, 40) =~= universal_upto(e, 39) + p(39));
    assert(universal_upto(e, 39) =~= universal_upto(e, 38));
    assert(universal_upto(e, 38) =~= universal_upto(e, 37) + p(37));
    lemma_upto_same(e, 33, 37);
    assert(universal_upto(e, 33) =~= universal_upto(e, 32) + p(32));
    lemma_upto_same(e, 14, 32);
    assert(universal_upto(e, 14) =~= universal_upto(e, 13) + p(13));
    assert(universal_upto(e, 13) =~= universal_upto(e, 12) + p(12));
    assert(universal_upto(e, 12) =~= universal_upto(e, 11) + p(11));
    lemma_upto_same(e, 5, 11);
    assert(universal_upto(e, 5) =~= universal_upto(e, 4) + p(4));
    assert(universal_upto(e, 4) =~= universal_upto(e, 3) + p(3));
    assert(universal_upto(e, 3) =~= universal_upto(e, 2) + p(2));
    assert(universal_upto(e, 2) =~= universal_upto(e, 1) + p(1));
    assert(p(1) =~= Seq::<u8>::empty());
}

proof fn lemma_upto_same(e: EventView, f: int, g: int)
    requires
        1 <= f <= g,
        forall|k: int| f <= k < g ==> !universal_present(e, k),
    ensures
        universal_upto(e, g) =~= universal_upto(e, f),
    decreases g - f,
{
    if f < g {
        lemma_upto_same(e, f, g - 1);
        assert(seg(universal_present(e, g - 1), universal_field_bytes(e, g - 1)) =~= Seq::<u8>::empty());
    }
}

pub(crate) proof fn lemma_field_roundtrip(e: EventView, raw: Seq<u8>, f: int, off: int, st: EventView)
    requires
        universal_wf(e),
        universal_present(e, f),
        0 <= off,
        off + universal_field_bytes(e, f).len() <= raw.len(),
        raw.subrange(off, off + universal_field_bytes(e, f).len()) == universal_field_bytes(e, f),
    ensures
        universal_step(raw, f, off, st) == Ok::<(int, EventView), ParseError>(
            (off + universal_field_bytes(e, f).len(), universal_set(st, e, f)),
        ),
{
    let fb = universal_field_bytes(e, f);
    crate::iso_fields::lemma_pow10_small();
    if f == 2 || f == 32 {
        let v = if f == 2 { e.fpan } else { e.acquirer_id };
        crate::numeric::lemma_zero_padded_parses(v.len(), 2);
        crate::numeric::lemma_decimal_digits_len(v.len(), 2, 100);
        let z = zero_padded(v.len(), 2);
        assert(z.len() == 2);
        assert(fb =~= z + v);
        assert(raw.subrange(off, off + 2) =~= fb.subrange(0, 2));
        assert(fb.subrange(0, 2) =~= z);
        assert(raw.subrange(off + 2, off + 2 + v.len()) =~= fb.subrange(2, fb.len() as int));
        assert(fb.subrange(2, fb.len() as int) =~= v);
    } else if f == 4 {
        crate::numeric::lemma_zero_padded_parses(e.amount as nat, 12);
        crate::numeric::lemma_decimal_digits_len(e.amount as nat, 12, 1_000_000_000_000);
        let z = zero_padded(e.amount as nat, 12);
        assert(z.len() == 12);
        assert(fb =~= z);
        assert(crate::text::all_ascii(z)) by {
            assert forall|i: int| 0 <= i < z.len() implies #[trigger] z[i] < 128 by {
                assert(crate::numeric::is_digit(z[i]));
            }
        }
        crate::text::lemma_ascii_utf8(z);
        assert(raw.subrange(off, off + 12) =~= z);
        assert(encode_utf8(decode_lossy(z)) == z);
    } else if f == 3 || f == 11 || f == 12 || f == 13 || f == 37 || f == 39 {
        let s = if f == 3 {
            e.processing_code
        } else if f == 11 {
            e.stan
        } else if f == 12 {
            e.local_time
        } else if f == 13 {
            e.local_date
        } else if f == 37 {
            e.rrn
        } else {
            e.response_code
        };
        crate::text::lemma_decode_encoded(s);
        assert(encode_utf8(s).take(encode_utf8(s).len() as int) =~= encode_utf8(s));
        assert(fb =~= encode_utf8(s));
    } else {
        assert(f == 52);
        assert(fb =~= e.pin_block.take(16));
        assert(e.pin_block.take(16) =~= e.pin_block);
    }
}

proof fn lemma_walk_roundtrip(e: EventView, raw: Seq<u8>, f: int)
    requires
        universal_wf(e),
        universal_encodes(e, raw),
        1 <= f <= 65,
    ensures
        universal_walk(raw, raw.subrange(4, 12), f, 12 + universal_upto(e, f).len() as int, universal_state(e, f))
            == Ok::<EventView, ParseError>(universal_state(e, 65)),
    decreases 65 - f,
{
    if f <= 64 {
        lemma_walk_roundtrip(e, raw, f + 1);
        let bm = raw.subrange(4, 12);
        let off: int = 12 + universal_upto(e, f).len() as int;
        assert(bit_is_set(bm, f) == universal_present(e, f));
        if universal_present(e, f) {
            let fb = universal_field_bytes(e, f);
            lemma_upto_prefix(e, f + 1, 65);
            lemma_upto_full(e);
            let full = universal_upto(e, 65);
            let up = universal_upto(e, f + 1);
            assert(up =~= universal_upto(e, f) + fb);
            assert(raw.subrange(12, raw.len() as int) == full);
            assert(raw.subrange(off, off + fb.len() as int) =~= up.subrange(universal_upto(e, f).len() as int, up.len() as int)) by {
                assert forall|i: int| 0 <= i < fb.len() implies raw.subrange(off, off + fb.len() as int)[i]
                    == up.subrange(universal_upto(e, f).len() as int, up.len() as int)[i] by {
                    let k = universal_upto(e, f).len() + i;
                    assert(raw[12 + k] == raw.subrange(12, raw.len() as int)[k]);
                    assert(full[k] == full.subrange(0, up.len() as int)[k]);
                }
            }
            assert(up.subrange(universal_upto(e, f).len() as int, up.len() as int) =~= fb);
            assert(full.len() == raw.len() - 12);
            lemma_field_roundtrip(e, raw, f, off, universal_state(e, f));
        }
    }
}

/// Reading back what the universal layout wrote gives the fields it carries:
/// for an event whose fields fit the layout, decoding its encoding yields
/// the event's fields, its MTI's message class and defaults elsewhere.
pub proof fn law_universal_roundtrip(e: EventView, raw: Seq<u8>)
    requires
        universal_wf(e),
        universal_encodes(e, raw),
    ensures
        spec_universal_decode(raw) == Ok::<EventView, ParseError>(universal_projection(e)),
{
    lemma_walk_roundtrip(e, raw, 1);
    assert(raw.subrange(0, 4) =~= e.mti);
    lemma_state_projection(e);
    if raw.len() == 12 {
        lemma_walk_past_end(raw, raw.subrange(4, 12), 1, blank_event(e.mti, class_of_mti(e.mti)));
    }
}

/// With no data left, reading adds nothing: whatever it gives back, when it
/// succeeds, is the event it started from.
proof fn lemma_walk_past_end(raw: Seq<u8>, bitmap: Seq<u8>, f: int, ev: EventView)
    ensures
        universal_walk(raw, bitmap, f, raw.len() as int, ev) matches Ok(x) ==> x == ev,
    decreases 65 - f,
{
    if f <= 64 {
        if bit_is_set(bitmap, f) {
            match universal_step(raw, f, raw.len() as int, ev) {
                Ok((n, e2)) => {
                    assert(n == raw.len() && e2 == ev);
                    lemma_walk_past_end(raw, bitmap, f + 1, ev);
                },
                Err(_) => {},
            }
        } else {
            lemma_walk_past_end(raw, bitmap, f + 1, ev);
        }
    }
}

proof fn lemma_state_projection(e: EventView)
    ensures
        universal_state(e, 65) == universal_projection(e),
{
    lemma_state_fields(e, 65);
    if !universal_present(e, 2) { assert(e.fpan =~= Seq::<u8>::empty()); }
    if !universal_present(e, 3) { assert(e.processing_code =~= Seq::<char>::empty()); }
    if !universal_present(e, 11) { assert(e.stan =~= Seq::<char>::empty()); }
    if !universal_present(e, 12) { assert(e.local_time =~= Seq::<char>::empty()); }
    if !universal_present(e, 13) { assert(e.local_date =~= Seq::<char>::empty()); }
    if !universal_present(e, 32) { assert(e.acquirer_id =~= Seq::<u8>::empty()); }
    if !universal_present(e, 37) { assert(e.rrn =~= Seq::<char>::empty()); }
    if !universal_present(e, 39) { assert(e.response_code =~= Seq::<char>::empty()); }
    if !universal_present(e, 52) { assert(e.pin_block =~= Seq::<u8>::empty()); }
    assert(universal_state(e, 65) =~= universal_projection(e));
}

proof fn lemma_state_fields(e: EventView, f: int)
    requires
        1 <= f <= 65,
    ensures
        ({
            let st = universal_state(e, f);
            let b = blank_event(e.mti, class_of_mti(e.mti));
            &&& st.fpan == (if f > 2 && universal_present(e, 2) { e.fpan } else { b.fpan })
            &&& st.processing_code == (if f > 3 && universal_present(e, 3) { e.processing_code } else { b.processing_code })
            &&& st.amount == (if f > 4 && universal_present(e, 4) { e.amount } else { b.amount })
            &&& st.stan == (if f > 11 && universal_present(e, 11) { e.stan } else { b.stan })
            &&& st.local_time == (if f > 12 && universal_present(e, 12) { e.local_time } else { b.local_time })
            &&& st.local_date == (if f > 13 && universal_present(e, 13) { e.local_date } else { b.local_date })
            &&& st.acquirer_id == (if f > 32 && universal_present(e, 32) { e.acquirer_id } else { b.acquirer_id })
            &&& st.rrn == (if f > 37 && universal_present(e, 37) { e.rrn } else { b.rrn })
            &&& st.response_code == (if f > 39 && universal_present(e, 39) { e.response_code } else { b.response_code })
            &&& st.pin_block == (if f > 52 && universal_present(e, 52) { e.pin_block } else { b.pin_block })
            &&& st.message_class == b.message_class
            &&& st.transaction_type == b.transaction_type
            &&& st.mti == b.mti
            &&& st.dpan == b.dpan
            &&& st.is_tokenized == b.is_tokenized
            &&& st.tavv_cryptogram == b.tavv_cryptogram
            &&& st.risk_score == b.risk_score
            &&& st.requires_instant_clearing == b.requires_instant_clearing
            &&& st.domestic_settlement_data == b.domestic_settlement_data
            &&& st.source_account == b.source_account
            &&& st.destination_account == b.destination_account
            &&& st.original_data_elements == b.original_data_elements
            &&& st.mac_data == b.mac_data
            &&& st.is_reversal == b.is_reversal
        }),
    decreases f,
{
    if f > 1 {
        lemma_state_fields(e, f - 1);
    }
}

/// An ISO 8583 dialect: how a message is read into an event and written back.
pub trait IsoDialect {
    fn decode(&self, raw: &[u8]) -> (r: Result<UniversalPaymentEvent, ParseError>)
        ensures
            match spec_universal_decode(raw@) {
                Ok(e) => r matches Ok(t) && t@ == e,
                Err(e) => r matches Err(x) && x == e,
            },
    ;

    fn encode(&self, tx: &UniversalPaymentEvent) -> (r: Result<Vec<u8>, ParseError>)
        ensures
            r matches Ok(raw) && universal_encodes(tx@, raw@),
    ;
}

/// The Base24 dialect, in the universal layout.
pub struct Base24Dialect;

impl IsoDialect for Base24Dialect {
    fn decode(&self, raw: &[u8]) -> (r: Result<UniversalPaymentEvent, ParseError>) {
        universal_decode(raw)
    }

    fn encode(&self, tx: &UniversalPaymentEvent) -> (r: Result<Vec<u8>, ParseError>) {
        universal_encode(tx)
    }
}

/// The Connex dialect, in the universal layout.
pub struct ConnexDialect;

impl IsoDialect for ConnexDialect {
    fn decode(&self, raw: &[u8]) -> (r: Result<UniversalPaymentEvent, ParseError>) {
        universal_decode(raw)
    }

    fn encode(&self, tx: &UniversalPaymentEvent) -> (r: Result<Vec<u8>, ParseError>) {
        universal_encode(tx)
    }
}

/// The dialect a link speaks.
pub enum DialectRouter {
    Base24(Base24Dialect),
    Connex(ConnexDialect),
}

impl DialectRouter {
    /// Decodes a message in this dialect.
    pub fn decode(&self, raw: &[u8]) -> (r: Result<UniversalPaymentEvent, ParseError>)
        ensures
            match spec_universal_decode(raw@) {
                Ok(e) => r matches Ok(t) && t@ == e,
                Err(e) => r matches Err(x) && x == e,
            },
    {
        match self {
            DialectRouter::Base24(d) => d.decode(raw),
            DialectRouter::Connex(d) => d.decode(raw),
        }
    }

    /// Encodes an event in this dialect.
    pub fn encode(&self, tx: &UniversalPaymentEvent) -> (r: Result<Vec<u8>, ParseError>)
        ensures
            r matches Ok(raw) && universal_encodes(tx@, raw@),
    {
        match self {
            DialectRouter::Base24(d) => d.encode(tx),
            DialectRouter::Connex(d) => d.encode(tx),
        }
    }
}

} // verus!
