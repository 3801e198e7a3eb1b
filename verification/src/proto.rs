//! The payment-protocol dialects: the standard ISO 8583 dialect with up to
//! three chained bitmaps and its data dictionaries, the Interac dialect and
//! the UK Faster Payments dialect.
use vstd::prelude::*;
use vstd::utf8::{decode_utf8, encode_utf8, is_char_boundary, valid_utf8};
use crate::canonical::{class_of_mti, message_class_of, mti4, mti_is, EventView, LocalDate, LocalTime, ProcessingCode, ResponseCode, Rrn, Stan, UniversalPaymentEvent};
use crate::dialect::{
    amount_of, bitmap_flags, blank_event, blank_event_of, mti_out, seg, universal_field_bytes, universal_is_present,
    universal_present, write_universal_field, zero_bytes,
};
use crate::iso_fields::{
    bit_is_set, field_mask, is_bit_set, read_fixed, read_llvar, read_lllvar, set_bit, spec_read_fixed, spec_read_var, spec_var,
    write_fixed, write_llvar, write_lllvar, ParseError,
};
use crate::numeric::{append_bytes, parse_bounded, parse_u64};
use crate::text::{all_ascii, ascii_chars, bytes_equal, bytes_start_with, bytes_to_vec, decode_lossy, lemma_ascii_utf8, string_bytes, to_text};

verus! {

/// A raw ISO 8583 message.
#[derive(Debug, Clone)]
pub struct Iso8583Message {
    pub payload: Vec<u8>,
}

impl View for Iso8583Message {
    type V = Seq<u8>;

    open spec fn view(&self) -> Seq<u8> {
        self.payload@
    }
}

/// How a data element is laid out on the wire.
#[derive(Debug, Clone, Copy, PartialEq, Eq, Structural)]
pub enum FieldType {
    /// Exactly this many bytes.
    Fixed(usize),
    /// A two-digit length, then that many bytes.
    Llvar,
    /// A three-digit length, then that many bytes.
    Lllvar,
}

/// The field layouts of the ISO 8583:1987 data dictionary.
pub open spec fn iso1987_field_type(field: int) -> Option<FieldType> {
    if field == 2 {
        Some(FieldType::Llvar)
    } else if field == 3 {
        Some(FieldType::Fixed(6))
    } else if field == 4 {
        Some(FieldType::Fixed(12))
    } else if field == 11 {
        Some(FieldType::Fixed(6))
    } else if field == 12 {
        Some(FieldType::Fixed(6))
    } else if field == 13 {
        Some(FieldType::Fixed(4))
    } else if field == 22 {
        Some(FieldType::Fixed(3))
    } else if field == 32 {
        Some(FieldType::Llvar)
    } else if field == 37 {
        Some(FieldType::Fixed(12))
    } else if field == 39 {
        Some(FieldType::Fixed(2))
    } else if field == 48 {
        Some(FieldType::Lllvar)
    } else if field == 52 {
        Some(FieldType::Fixed(16))
    } else if field == 64 {
        Some(FieldType::Fixed(16))
    } else if field == 90 {
        Some(FieldType::Fixed(42))
    } else if field == 128 {
        Some(FieldType::Fixed(16))
    } else {
        None
    }
}

/// A data dictionary: the layout of each field it knows.
pub trait DataDictionary {
    /// The layout of `field`, `None` for a field the dictionary does not know.
    spec fn spec_field_type(&self, field: int) -> Option<FieldType>;

    fn field_type(&self, field: usize) -> (r: Option<FieldType>)
        ensures
            r == self.spec_field_type(field as int),
    ;
}

/// The ISO 8583:1987 dictionary.
pub struct Iso1987Dictionary;

impl DataDictionary for Iso1987Dictionary {
    open spec fn spec_field_type(&self, field: int) -> Option<FieldType> {
        iso1987_field_type(field)
    }

    fn field_type(&self, field: usize) -> (r: Option<FieldType>) {
        match field {
            2 => Some(FieldType::Llvar),
            3 => Some(FieldType::Fixed(6)),
            4 => Some(FieldType::Fixed(12)),
            11 => Some(FieldType::Fixed(6)),
            12 => Some(FieldType::Fixed(6)),
            13 => Some(FieldType::Fixed(4)),
            22 => Some(FieldType::Fixed(3)),
            32 => Some(FieldType::Llvar),
            37 => Some(FieldType::Fixed(12)),
            39 => Some(FieldType::Fixed(2)),
            48 => Some(FieldType::Lllvar),
            52 => Some(FieldType::Fixed(16)),
            64 => Some(FieldType::Fixed(16)),
            90 => Some(FieldType::Fixed(42)),
            128 => Some(FieldType::Fixed(16)),
            _ => None,
        }
    }
}

/// The ISO 8583:1993 dictionary, which shares the 1987 layouts.
pub struct Iso1993Dictionary;

impl DataDictionary for Iso1993Dictionary {
    open spec fn spec_field_type(&self, field: int) -> Option<FieldType> {
        iso1987_field_type(field)
    }

    fn field_type(&self, field: usize) -> (r: Option<FieldType>) {
        Iso1987Dictionary.field_type(field)
    }
}

/// The ISO 8583:2003 dictionary, which shares the 1987 layouts.
pub struct Iso2003Dictionary;

impl DataDictionary for Iso2003Dictionary {
    open spec fn spec_field_type(&self, field: int) -> Option<FieldType> {
        iso1987_field_type(field)
    }

    fn field_type(&self, field: usize) -> (r: Option<FieldType>) {
        Iso1987Dictionary.field_type(field)
    }
}

/// The dictionary an MTI's version digit selects; an unknown version reads as 1987.
fn versioned_field_type(version: u8, field: usize) -> (r: Option<FieldType>)
    ensures
        r == iso1987_field_type(field as int),
{
    match version {
        48u8 => Iso1987Dictionary.field_type(field),
        49u8 => Iso1993Dictionary.field_type(field),
        50u8 => Iso2003Dictionary.field_type(field),
        _ => Iso1987Dictionary.field_type(field),
    }
}

/// Which dialect's field rules apply.
#[derive(Debug, Clone, Copy, PartialEq, Eq, Structural)]
pub enum Layout {
    Standard,
    Interac,
    UkFps,
}

/// The fields every dialect reads the same way.
pub open spec fn is_common_field(f: int) -> bool {
    f == 2 || f == 3 || f == 4 || f == 11 || f == 12 || f == 13 || f == 22 || f == 32 || f == 37 || f == 39
        || f == 52
}

/// The layout of field `f` in a dialect; `None` for a field the dialect does not read.
pub open spec fn layout_field_type(l: Layout, f: int) -> Option<FieldType> {
    match l {
        Layout::Standard => iso1987_field_type(f),
        Layout::Interac => if is_common_field(f) || f == 48 {
            iso1987_field_type(f)
        } else if f == 63 {
            Some(FieldType::Lllvar)
        } else {
            None
        },
        Layout::UkFps => if is_common_field(f) {
            iso1987_field_type(f)
        } else if f == 102 || f == 103 {
            Some(FieldType::Llvar)
        } else {
            None
        },
    }
}

/// The standard dialect passes over the bitmap-extension bits 1, 65 and 129.
pub open spec fn layout_skips(l: Layout, f: int) -> bool {
    l is Standard && (f == 1 || f == 65 || f == 129)
}

/// Reading a field of layout `ft` at `off`: its bytes and the offset after it.
pub open spec fn read_by_type(raw: Seq<u8>, off: int, ft: FieldType) -> Result<(Seq<u8>, int), ParseError> {
    match ft {
        FieldType::Fixed(n) => spec_read_fixed(raw, off, n as int),
        FieldType::Llvar => spec_read_var(raw, off, 2),
        FieldType::Lllvar => spec_read_var(raw, off, 3),
    }
}

/// The UTF-8 bytes of the text that field bytes decode to.
pub open spec fn text_bytes(v: Seq<u8>) -> Seq<u8> {
    encode_utf8(decode_lossy(v))
}

/// A point-of-service entry mode that marks a tokenized wallet payment (`071` or `072`).
pub open spec fn is_token_entry(v: Seq<u8>) -> bool {
    text_bytes(v) == seq![48u8, 55u8, 49u8] || text_bytes(v) == seq![48u8, 55u8, 50u8]
}

/// Field `f`, read as `v`, stored in `ev` the way all dialects store it.
pub open spec fn common_apply(f: int, v: Seq<u8>, ev: EventView) -> EventView {
    if f == 2 {
        EventView { fpan: v, ..ev }
    } else if f == 3 {
        EventView { processing_code: decode_lossy(v), ..ev }
    } else if f == 4 {
        EventView { amount: amount_of(v), ..ev }
    } else if f == 11 {
        EventView { stan: decode_lossy(v), ..ev }
    } else if f == 12 {
        EventView { local_time: decode_lossy(v), ..ev }
    } else if f == 13 {
        EventView { local_date: decode_lossy(v), ..ev }
    } else if f == 22 {
        if is_token_entry(v) {
            EventView { is_tokenized: true, ..ev }
        } else {
            ev
        }
    } else if f == 32 {
        EventView { acquirer_id: v, ..ev }
    } else if f == 37 {
        EventView { rrn: decode_lossy(v), ..ev }
    } else if f == 39 {
        EventView { response_code: decode_lossy(v), ..ev }
    } else if f == 52 {
        EventView { pin_block: v, ..ev }
    } else {
        ev
    }
}

/// The bytes `RSK:` that open a network risk tag.
pub open spec fn risk_prefix() -> Seq<u8> {
    seq![82u8, 83u8, 75u8, 58u8]
}

/// Text that carries a risk tag: `RSK:`, then at least four more bytes.
pub open spec fn risk_tagged(t: Seq<u8>) -> bool {
    t.len() >= 8 && t.subrange(0, 4) == risk_prefix()
}

/// Field 48 of the standard dialect, read as `v`, stored in `ev`: a risk tag
/// `RSK:NNN:` gives the risk score (when `NNN` is a number up to 255) and,
/// on a tokenized payment, a non-empty rest is the cryptogram; without a tag
/// the whole text is the cryptogram of a tokenized payment.  `None` where the
/// tag's positions 4, 7 and 8 do not all fall on character boundaries: the
/// text cannot be sliced there.
pub open spec fn std_field48(v: Seq<u8>, ev: EventView) -> Option<EventView> {
    let s = decode_lossy(v);
    let t = encode_utf8(s);
    if risk_tagged(t) {
        if is_char_boundary(t, 4) && is_char_boundary(t, 7) && is_char_boundary(t, 8) {
            let ev1 = match parse_bounded(t.subrange(4, 7), 255) {
                Some(n) => EventView { risk_score: n as u8, ..ev },
                None => ev,
            };
            let rest = decode_utf8(t.subrange(8, t.len() as int));
            if ev.is_tokenized && rest.len() > 0 {
                Some(EventView { tavv_cryptogram: Some(rest), ..ev1 })
            } else {
                Some(ev1)
            }
        } else {
            None
        }
    } else if ev.is_tokenized {
        Some(EventView { tavv_cryptogram: Some(s), ..ev })
    } else {
        Some(ev)
    }
}

/// The bytes `UKFPS-`.
pub open spec fn fps_prefix() -> Seq<u8> {
    seq![85u8, 75u8, 70u8, 80u8, 83u8, 45u8]
}

/// Field `f` of dialect `l`, read as `v`, stored in `ev`; `flag1` tells
/// whether bitmap bit 1 is set.  `None` where the standard dialect cannot
/// slice field 48.
pub open spec fn layout_apply(l: Layout, flag1: bool, f: int, v: Seq<u8>, ev: EventView) -> Option<EventView> {
    match l {
        Layout::Standard => if f == 48 {
            std_field48(v, ev)
        } else if f == 64 {
            Some(if !flag1 { EventView { mac_data: Some(decode_lossy(v)), ..ev } } else { ev })
        } else if f == 90 {
            Some(EventView { original_data_elements: Some(decode_lossy(v)), ..ev })
        } else if f == 128 {
            Some(if flag1 { EventView { mac_data: Some(decode_lossy(v)), ..ev } } else { ev })
        } else {
            Some(common_apply(f, v, ev))
        },
        Layout::Interac => Some(
            if f == 48 {
                EventView { tavv_cryptogram: Some(decode_lossy(v)), ..ev }
            } else if f == 63 {
                EventView { domestic_settlement_data: Some(decode_lossy(v)), ..ev }
            } else {
                common_apply(f, v, ev)
            },
        ),
        Layout::UkFps => Some(
            if f == 102 {
                let s = decode_lossy(v);
                let ev1 = EventView { source_account: Some(s), ..ev };
                if ev.fpan.len() == 0 {
                    EventView { fpan: fps_prefix() + encode_utf8(s), ..ev1 }
                } else {
                    ev1
                }
            } else if f == 103 {
                EventView { destination_account: Some(decode_lossy(v)), ..ev }
            } else {
                common_apply(f, v, ev)
            },
        ),
    }
}

/// Reading field `f` of dialect `l` at `off` into `ev`: the offset after it
/// and the event with it stored.  A field the standard dialect does not know
/// is an error; the other dialects pass over it without reading.
pub open spec fn layout_step(l: Layout, raw: Seq<u8>, flag1: bool, f: int, off: int, ev: EventView) -> Option<
    Result<(int, EventView), ParseError>,
> {
    match layout_field_type(l, f) {
        None => if l is Standard {
            Some(Err(ParseError::InvalidFormat))
        } else {
            Some(Ok((off, ev)))
        },
        Some(ft) => match read_by_type(raw, off, ft) {
            Err(e) => Some(Err(e)),
            Ok((v, n)) => match layout_apply(l, flag1, f, v, ev) {
                None => None,
                Some(e2) => Some(Ok((n, e2))),
            },
        },
    }
}

/// Reading the fields `f..=last` that `bits` flags, from `off` on.
pub open spec fn layout_walk(l: Layout, raw: Seq<u8>, bits: Seq<u8>, last: int, f: int, off: int, ev: EventView) -> Option<
    Result<EventView, ParseError>,
>
    decreases last + 1 - f,
{
    if f > last {
        Some(Ok(ev))
    } else if layout_skips(l, f) || !bit_is_set(bits, f) {
        layout_walk(l, raw, bits, last, f + 1, off, ev)
    } else {
        match layout_step(l, raw, bit_is_set(bits, 1), f, off, ev) {
            None => None,
            Some(Err(e)) => Some(Err(e)),
            Some(Ok((n, e2))) => layout_walk(l, raw, bits, last, f + 1, n, e2),
        }
    }
}

/// Reading fields never changes whether a message asks for instant clearing.
proof fn lemma_walk_keeps_clearing(l: Layout, raw: Seq<u8>, bits: Seq<u8>, last: int, f: int, off: int, ev: EventView)
    ensures
        layout_walk(l, raw, bits, last, f, off, ev) matches Some(Ok(x)) ==> x.requires_instant_clearing
            == ev.requires_instant_clearing,
    decreases last + 1 - f,
{
    if f <= last {
        if layout_skips(l, f) || !bit_is_set(bits, f) {
            lemma_walk_keeps_clearing(l, raw, bits, last, f + 1, off, ev);
        } else {
            match layout_step(l, raw, bit_is_set(bits, 1), f, off, ev) {
                Some(Ok((n, e2))) => {
                    assert(e2.requires_instant_clearing == ev.requires_instant_clearing);
                    lemma_walk_keeps_clearing(l, raw, bits, last, f + 1, n, e2);
                },
                _ => {},
            }
        }
    }
}

/// Reading field 64 of a standard message without a secondary bitmap takes
/// its sixteen bytes as the MAC, and changes nothing else.
pub proof fn law_standard_field64_is_mac(raw: Seq<u8>, off: int, ev: EventView)
    requires
        0 <= off,
        off + 16 <= raw.len(),
    ensures
        layout_step(Layout::Standard, raw, false, 64, off, ev) == Some(
            Ok::<(int, EventView), ParseError>(
                (off + 16, EventView { mac_data: Some(decode_lossy(raw.subrange(off, off + 16))), ..ev }),
            ),
        ),
{
}

/// With a secondary bitmap, field 64 is not the MAC (field 128 is): reading
/// it leaves the event as it was.
pub proof fn law_standard_field128_is_mac(raw: Seq<u8>, off: int, ev: EventView)
    requires
        0 <= off,
        off + 16 <= raw.len(),
    ensures
        layout_step(Layout::Standard, raw, true, 64, off, ev) == Some(Ok::<(int, EventView), ParseError>((off + 16, ev))),
        layout_step(Layout::Standard, raw, true, 128, off, ev) == Some(
            Ok::<(int, EventView), ParseError>(
                (off + 16, EventView { mac_data: Some(decode_lossy(raw.subrange(off, off + 16))), ..ev }),
            ),
        ),
{
}

proof fn lemma_walk_skips_unflagged(raw: Seq<u8>, bits: Seq<u8>, last: int, f: int, g: int, off: int, ev: EventView)
    requires
        f <= g,
        forall|h: int| f <= h < g ==> !#[trigger] bit_is_set(bits, h),
    ensures
        layout_walk(Layout::Standard, raw, bits, last, f, off, ev) == layout_walk(Layout::Standard, raw, bits, last, g, off, ev),
    decreases g - f,
{
    if f < g && f <= last {
        assert(!bit_is_set(bits, f));
        lemma_walk_skips_unflagged(raw, bits, last, f + 1, g, off, ev);
    }
}

/// A standard message whose primary bitmap flags only field 64 parses, and
/// its MAC is the sixteen bytes that follow the bitmap.
pub proof fn law_standard_parse_keeps_mac(mti: Seq<u8>, mac: Seq<u8>)
    requires
        mti.len() == 4,
        mac.len() == 16,
    ensures
        standard_parse(mti + seq![0u8, 0u8, 0u8, 0u8, 0u8, 0u8, 0u8, 1u8] + mac) matches Some(Ok(ev))
            && ev.mac_data == Some(decode_lossy(mac)),
{
    let bm = seq![0u8, 0u8, 0u8, 0u8, 0u8, 0u8, 0u8, 1u8];
    let raw = mti + bm + mac;
    assert(raw[4] == 0u8);
    assert(0u8 & 0x80u8 == 0) by (bit_vector);
    assert(raw.subrange(4, 12) =~= bm);
    assert(std_bitmap(raw) == Ok::<Seq<u8>, ParseError>(bm));
    assert forall|h: int| 1 <= h < 64 implies !#[trigger] bit_is_set(bm, h) by {
        let m = field_mask(h);
        if h < 57 {
            assert(bm[(h - 1) / 8] == 0u8);
            assert(0u8 & m == 0) by (bit_vector);
        } else {
            assert(bm[(h - 1) / 8] == 1u8);
            let k = ((h - 1) % 8) as u8;
            assert(k < 7);
            assert(m == (0x80u8 >> k) as u8);
            assert(k < 7 ==> 1u8 & ((0x80u8 >> k) as u8) == 0) by (bit_vector);
        }
    }
    assert(bit_is_set(bm, 64)) by {
        assert(bm[7] == 1u8);
        assert(field_mask(64) == 1u8) by (bit_vector);
        assert(1u8 & 1u8 != 0) by (bit_vector);
    }
    let start = std_blank(raw.subrange(0, 4));
    lemma_walk_skips_unflagged(raw, bm, 64, 1, 64, 12, start);
    assert(raw.subrange(12, 28) =~= mac);
    law_standard_field64_is_mac(raw, 12, start);
    reveal_with_fuel(layout_walk, 2);
}

/// The content of a parse result.
pub open spec fn event_result(r: Result<UniversalPaymentEvent, ParseError>) -> Result<EventView, ParseError> {
    match r {
        Ok(t) => Ok(t@),
        Err(e) => Err(e),
    }
}

/// The content of a parse result that may be missing.
pub open spec fn opt_event_result(r: Option<Result<UniversalPaymentEvent, ParseError>>) -> Option<Result<EventView, ParseError>> {
    match r {
        Some(x) => Some(event_result(x)),
        None => None,
    }
}

/// Reads a field of layout `ft`.
fn read_typed<'a>(raw: &'a [u8], offset: &mut usize, ft: FieldType) -> (r: Result<&'a [u8], ParseError>)
    requires
        *old(offset) <= raw@.len(),
    ensures
        match read_by_type(raw@, *old(offset) as int, ft) {
            Ok((v, n)) => r matches Ok(rv) && rv@ == v && *final(offset) == n,
            Err(e) => r matches Err(x) && x == e,
        },
        *final(offset) <= raw@.len(),
{
    match ft {
        FieldType::Fixed(n) => read_fixed(raw, offset, n),
        FieldType::Llvar => read_llvar(raw, offset),
        FieldType::Lllvar => read_lllvar(raw, offset),
    }
}

/// Whether the field's text is one of the token entry modes.
fn token_entry(v: &[u8]) -> (r: bool)
    ensures
        r == is_token_entry(v@),
{
    let s = to_text(v);
    let t = string_bytes(&s);
    bytes_equal(t, &[48u8, 55u8, 49u8]) || bytes_equal(t, &[48u8, 55u8, 50u8])
}

/// Stores a field the way all dialects do.
fn apply_common(f: usize, v: &[u8], tx: &mut UniversalPaymentEvent)
    ensures
        final(tx)@ == common_apply(f as int, v@, old(tx)@),
{
    if f == 2 {
        tx.fpan = bytes_to_vec(v);
    } else if f == 3 {
        tx.processing_code = ProcessingCode(to_text(v));
    } else if f == 4 {
        let text = to_text(v);
        tx.amount = match parse_u64(string_bytes(&text)) {
            Some(a) => a,
            None => 0,
        };
    } else if f == 11 {
        tx.stan = Stan(to_text(v));
    } else if f == 12 {
        tx.local_time = LocalTime(to_text(v));
    } else if f == 13 {
        tx.local_date = LocalDate(to_text(v));
    } else if f == 22 {
        if token_entry(v) {
            tx.is_tokenized = true;
        }
    } else if f == 32 {
        tx.acquirer_id = bytes_to_vec(v);
    } else if f == 37 {
        tx.rrn = Rrn(to_text(v));
    } else if f == 39 {
        tx.response_code = ResponseCode(to_text(v));
    } else if f == 52 {
        tx.pin_block = bytes_to_vec(v);
    }
}

/// Stores field 48 of the standard dialect; `false` where the text cannot be sliced.
fn apply_std_field48(v: &[u8], tx: &mut UniversalPaymentEvent) -> (ok: bool)
    ensures
        match std_field48(v@, old(tx)@) {
            Some(e2) => ok && final(tx)@ == e2,
            None => !ok,
        },
{
    let s = to_text(v);
    let t = string_bytes(&s);
    let tagged = bytes_start_with(t, &[82u8, 83u8, 75u8, 58u8]) && t.len() >= 8;
    proof {
        assert(tagged == risk_tagged(t@)) by {
            if t@.len() >= 8 {
                assert(t@.subrange(0, 4) =~= t@.subrange(0, risk_prefix().len() as int));
            }
        }
    }
    if tagged {
        let st: &str = s.as_str();
        if !(st.is_char_boundary(4) && st.is_char_boundary(7) && st.is_char_boundary(8)) {
            return false;
        }
        match parse_u64(&t[4..7]) {
            Some(n) => {
                if n <= 255 {
                    tx.risk_score = n as u8;
                }
            },
            None => {},
        }
        let (_head, rest) = st.split_at(8);
        let remainder: String = rest.to_owned();
        proof {
            vstd::utf8::encode_utf8_decode_utf8(rest@);
            assert(t@.subrange(8, t@.len() as int) =~= encode_utf8(rest@));
        }
        if tx.is_tokenized && !remainder.as_str().is_empty() {
            tx.tavv_cryptogram = Some(remainder);
        }
        true
    } else {
        if tx.is_tokenized {
            tx.tavv_cryptogram = Some(s);
        }
        true
    }
}

/// Stores field `f` of dialect `l`; `false` where the standard dialect cannot slice field 48.
fn apply_layout(l: Layout, flag1: bool, f: usize, v: &[u8], tx: &mut UniversalPaymentEvent) -> (ok: bool)
    ensures
        match layout_apply(l, flag1, f as int, v@, old(tx)@) {
            Some(e2) => ok && final(tx)@ == e2,
            None => !ok,
        },
{
    match l {
        Layout::Standard => {
            if f == 48 {
                return apply_std_field48(v, tx);
            } else if f == 64 {
                if !flag1 {
                    tx.mac_data = Some(to_text(v));
                }
            } else if f == 90 {
                tx.original_data_elements = Some(to_text(v));
            } else if f == 128 {
                if flag1 {
                    tx.mac_data = Some(to_text(v));
                }
            } else {
                apply_common(f, v, tx);
            }
        },
        Layout::Interac => {
            if f == 48 {
                tx.tavv_cryptogram = Some(to_text(v));
            } else if f == 63 {
                tx.domestic_settlement_data = Some(to_text(v));
            } else {
                apply_common(f, v, tx);
            }
        },
        Layout::UkFps => {
            if f == 102 {
                let s = to_text(v);
                let had_pan = tx.fpan.len() > 0;
                let mut pan: Vec<u8> = Vec::new();
                append_bytes(&mut pan, &[85u8, 75u8, 70u8, 80u8, 83u8, 45u8]);
                append_bytes(&mut pan, string_bytes(&s));
                tx.source_account = Some(s);
                if !had_pan {
                    tx.fpan = pan;
                }
            } else if f == 103 {
                tx.destination_account = Some(to_text(v));
            } else {
                apply_common(f, v, tx);
            }
        },
    }
    true
}

/// The layout of field `f` in dialect `l`; the standard dialect asks the
/// dictionary that the MTI's version digit selects.
fn layout_field_type_of(l: Layout, version: u8, f: usize) -> (r: Option<FieldType>)
    ensures
        r == layout_field_type(l, f as int),
{
    match l {
        Layout::Standard => versioned_field_type(version, f),
        Layout::Interac => {
            if f == 2 || f == 3 || f == 4 || f == 11 || f == 12 || f == 13 || f == 22 || f == 32 || f == 37
                || f == 39 || f == 52 || f == 48 {
                Iso1987Dictionary.field_type(f)
            } else if f == 63 {
                Some(FieldType::Lllvar)
            } else {
                None
            }
        },
        Layout::UkFps => {
            if f == 2 || f == 3 || f == 4 || f == 11 || f == 12 || f == 13 || f == 22 || f == 32 || f == 37
                || f == 39 || f == 52 {
                Iso1987Dictionary.field_type(f)
            } else if f == 102 || f == 103 {
                Some(FieldType::Llvar)
            } else {
                None
            }
        },
    }
}

/// Reads the fields `1..=last` that `bits` flags, starting at `offset`.
fn walk_layout(
    l: Layout,
    raw: &[u8],
    bits: &[u8],
    last: usize,
    version: u8,
    start: usize,
    first: UniversalPaymentEvent,
) -> (r: Option<Result<UniversalPaymentEvent, ParseError>>)
    requires
        start <= raw@.len(),
        last <= 192,
    ensures
        opt_event_result(r) == layout_walk(l, raw@, bits@, last as int, 1, start as int, first@),
{
    let ghost off0 = start;
    let ghost tx0 = first@;
    let flag1 = is_bit_set(bits, 1);
    let mut tx = first;
    let mut offset = start;
    let mut field: usize = 1;
    while field <= last
        invariant
            1 <= field <= last + 1,
            last <= 192,
            offset <= raw@.len(),
            flag1 == bit_is_set(bits@, 1),
            off0 == start,
            tx0 == first@,
            layout_walk(l, raw@, bits@, last as int, field as int, offset as int, tx@)
                == layout_walk(l, raw@, bits@, last as int, 1, off0 as int, tx0),
        decreases last + 1 - field,
    {
        let skip = match l {
            Layout::Standard => field == 1 || field == 65 || field == 129,
            _ => false,
        };
        if !skip && is_bit_set(bits, field) {
            let ghost off1 = offset as int;
            let ghost tx1 = tx@;
            assert(layout_walk(l, raw@, bits@, last as int, field as int, off1, tx1) == match layout_step(
                l,
                raw@,
                flag1,
                field as int,
                off1,
                tx1,
            ) {
                None => None,
                Some(Err(e)) => Some(Err(e)),
                Some(Ok((n, e2))) => layout_walk(l, raw@, bits@, last as int, field + 1, n, e2),
            });
            match layout_field_type_of(l, version, field) {
                None => {
                    match l {
                        Layout::Standard => {
                            return Some(Err(ParseError::InvalidFormat));
                        },
                        _ => {},
                    }
                },
                Some(ft) => {
                    let v = match read_typed(raw, &mut offset, ft) {
                        Ok(v) => v,
                        Err(e) => {
                            return Some(Err(e));
                        },
                    };
                    if !apply_layout(l, flag1, field, v, &mut tx) {
                        return None;
                    }
                },
            }
        }
        field = field + 1;
    }
    Some(Ok(tx))
}

/// The bitmaps of a standard-dialect message: the primary bitmap after the
/// MTI, and a further bitmap after each one whose first bit is set, three at most.
pub open spec fn std_bitmap(raw: Seq<u8>) -> Result<Seq<u8>, ParseError> {
    if raw.len() < 12 {
        Err(ParseError::LengthError)
    } else if raw[4] & 0x80u8 == 0 {
        Ok(raw.subrange(4, 12))
    } else if raw.len() < 20 {
        Err(ParseError::LengthError)
    } else if raw[12] & 0x80u8 == 0 {
        Ok(raw.subrange(4, 20))
    } else if raw.len() < 28 {
        Err(ParseError::LengthError)
    } else {
        Ok(raw.subrange(4, 28))
    }
}

/// A reversal MTI: `0400`, `0420` or `1420`.
pub open spec fn is_reversal_mti(m: Seq<u8>) -> bool {
    m == crate::canonical::mti4('0', '4', '0', '0') || m == crate::canonical::mti4('0', '4', '2', '0')
        || m == crate::canonical::mti4('1', '4', '2', '0')
}

/// The event the standard dialect starts from for an MTI.
pub open spec fn std_blank(mti: Seq<u8>) -> EventView {
    EventView { is_reversal: is_reversal_mti(mti), ..blank_event(mti, class_of_mti(mti)) }
}

/// What the standard dialect reads from `raw`; `None` where it cannot slice field 48.
pub open spec fn standard_parse(raw: Seq<u8>) -> Option<Result<EventView, ParseError>> {
    if raw.len() < 12 {
        Some(Err(ParseError::LengthError))
    } else {
        match std_bitmap(raw) {
            Err(e) => Some(Err(e)),
            Ok(bits) => layout_walk(
                Layout::Standard,
                raw,
                bits,
                (bits.len() * 8) as int,
                1,
                4 + bits.len() as int,
                std_blank(raw.subrange(0, 4)),
            ),
        }
    }
}

/// The event the Interac dialect starts from: the message class its MTI's
/// text names, and instant clearing for a `0200`.
pub open spec fn interac_blank(mti: Seq<u8>) -> EventView {
    EventView {
        requires_instant_clearing: text_bytes(mti) == crate::canonical::mti4('0', '2', '0', '0'),
        ..blank_event(mti, class_of_mti(text_bytes(mti)))
    }
}

/// What the Interac dialect reads from `raw`: fields 1 to 64 of the primary bitmap.
pub open spec fn interac_parse(raw: Seq<u8>) -> Result<EventView, ParseError> {
    if raw.len() < 12 {
        Err(ParseError::LengthError)
    } else {
        match layout_walk(Layout::Interac, raw, raw.subrange(4, 12), 64, 1, 12, interac_blank(raw.subrange(0, 4))) {
            Some(r) => r,
            None => Err(ParseError::InvalidFormat),
        }
    }
}

/// The end of the bitmaps of a UK Faster Payments message: a secondary
/// bitmap follows the primary one when its bit 1 is set.
pub open spec fn fps_header_end(raw: Seq<u8>) -> int {
    if bit_is_set(raw.subrange(4, 12), 1) {
        20
    } else {
        12
    }
}

/// What the UK Faster Payments dialect reads from `raw`: fields 1 to 128.
pub open spec fn fps_parse(raw: Seq<u8>) -> Result<EventView, ParseError> {
    if raw.len() < 12 {
        Err(ParseError::LengthError)
    } else if raw.len() < fps_header_end(raw) {
        Err(ParseError::LengthError)
    } else {
        let h = fps_header_end(raw);
        match layout_walk(
            Layout::UkFps,
            raw,
            raw.subrange(4, h),
            128,
            1,
            h,
            blank_event(raw.subrange(0, 4), class_of_mti(text_bytes(raw.subrange(0, 4)))),
        ) {
            Some(r) => r,
            None => Err(ParseError::InvalidFormat),
        }
    }
}

/// Reads a standard-dialect message; `None` where field 48 cannot be sliced.
fn standard_parse_bytes(raw: &[u8]) -> (r: Option<Result<UniversalPaymentEvent, ParseError>>)
    ensures
        opt_event_result(r) == standard_parse(raw@),
{
    if raw.len() < 12 {
        return Some(Err(ParseError::LengthError));
    }
    let mti = &raw[0..4];
    let mut bitmap: Vec<u8> = Vec::new();
    append_bytes(&mut bitmap, &raw[4..12]);
    let mut end: usize = 12;
    if raw[4] & 0x80u8 != 0 {
        if raw.len() < 20 {
            return Some(Err(ParseError::LengthError));
        }
        append_bytes(&mut bitmap, &raw[12..20]);
        end = 20;
        if raw[12] & 0x80u8 != 0 {
            if raw.len() < 28 {
                return Some(Err(ParseError::LengthError));
            }
            append_bytes(&mut bitmap, &raw[20..28]);
            end = 28;
        }
    }
    assert(bitmap@ =~= raw@.subrange(4, end as int));
    assert(std_bitmap(raw@) == Ok::<Seq<u8>, ParseError>(bitmap@));
    let class = message_class_of(mti);
    let reversal = mti_is(mti, 48u8, 52u8, 48u8, 48u8) || mti_is(mti, 48u8, 52u8, 50u8, 48u8) || mti_is(
        mti,
        49u8,
        52u8,
        50u8,
        48u8,
    );
    let mut tx = blank_event_of(bytes_to_vec(mti), class);
    tx.is_reversal = reversal;
    assert(tx@ == std_blank(raw@.subrange(0, 4)));
    walk_layout(Layout::Standard, raw, bitmap.as_slice(), bitmap.len() * 8, mti[0], end, tx)
}

/// Decoding an MTI with replacement gives the text `0200` exactly when the
/// MTI is the bytes `0200`: valid UTF-8 decodes to itself, and a replaced
/// text holds U+FFFD, which `0200` does not.
proof fn lemma_lossy_0200(mti: Seq<u8>, text: Seq<char>)
    requires
        text == decode_lossy(mti),
        !valid_utf8(mti) ==> text.contains('\u{FFFD}'),
    ensures
        (encode_utf8(text) == mti4('0', '2', '0', '0')) == (mti == mti4('0', '2', '0', '0')),
{
    let z = mti4('0', '2', '0', '0');
    assert(z =~= seq![48u8, 50u8, 48u8, 48u8]);
    assert(all_ascii(z));
    lemma_ascii_utf8(z);
    if valid_utf8(mti) {
        vstd::utf8::decode_utf8_encode_utf8(mti);
    } else {
        if encode_utf8(text) == z {
            vstd::utf8::encode_utf8_decode_utf8(text);
            assert(text == ascii_chars(z));
            let i = choose|i: int| 0 <= i < text.len() && text[i] == '\u{FFFD}';
            assert(text[i] == z[i] as char);
            assert(false);
        }
    }
}

/// Reads an Interac message.
fn interac_parse_bytes(raw: &[u8]) -> (r: Result<UniversalPaymentEvent, ParseError>)
    ensures
        event_result(r) == interac_parse(raw@),
        r matches Ok(t) ==> t@.requires_instant_clearing == (raw@.subrange(0, 4) == mti4('0', '2', '0', '0')),
{
    if raw.len() < 12 {
        return Err(ParseError::LengthError);
    }
    let mti = &raw[0..4];
    let text = to_text(mti);
    let class = message_class_of(string_bytes(&text));
    let instant = mti_is(string_bytes(&text), 48u8, 50u8, 48u8, 48u8);
    proof {
        lemma_lossy_0200(mti@, text@);
        lemma_walk_keeps_clearing(Layout::Interac, raw@, raw@.subrange(4, 12), 64, 1, 12, interac_blank(raw@.subrange(0, 4)));
    }
    let mut tx = blank_event_of(bytes_to_vec(mti), class);
    tx.requires_instant_clearing = instant;
    assert(tx@ == interac_blank(raw@.subrange(0, 4)));
    match walk_layout(Layout::Interac, raw, &raw[4..12], 64, mti[0], 12, tx) {
        Some(r) => r,
        None => Err(ParseError::InvalidFormat),
    }
}

/// Reads a UK Faster Payments message.
fn fps_parse_bytes(raw: &[u8]) -> (r: Result<UniversalPaymentEvent, ParseError>)
    ensures
        event_result(r) == fps_parse(raw@),
{
    if raw.len() < 12 {
        return Err(ParseError::LengthError);
    }
    let mti = &raw[0..4];
    let has_secondary = is_bit_set(&raw[4..12], 1);
    let end: usize = if has_secondary { 20 } else { 12 };
    if raw.len() < end {
        return Err(ParseError::LengthError);
    }
    let text = to_text(mti);
    let class = message_class_of(string_bytes(&text));
    let tx = blank_event_of(bytes_to_vec(mti), class);
    match walk_layout(Layout::UkFps, raw, &raw[4..end], 128, mti[0], end, tx) {
        Some(r) => r,
        None => Err(ParseError::InvalidFormat),
    }
}

/// A variable field carrying an optional text: its `ndigits`-digit encoding
/// when present.
pub open spec fn opt_var(o: Option<Seq<char>>, ndigits: nat) -> Seq<u8> {
    match o {
        Some(s) => spec_var(encode_utf8(s), ndigits),
        None => Seq::empty(),
    }
}

/// Field `f` is written when dialect `l` encodes `e`.  Bit 1 flags the UK
/// Faster Payments secondary bitmap, which carries the account fields.
pub open spec fn layout_present(l: Layout, e: EventView, f: int) -> bool {
    if f == 1 {
        l is UkFps && (e.source_account is Some || e.destination_account is Some)
    } else if f == 2 {
        !(l is UkFps) && e.fpan.len() > 0
    } else if f == 22 {
        e.is_tokenized
    } else if f == 48 {
        match l {
            Layout::Standard => e.is_tokenized && e.tavv_cryptogram is Some,
            Layout::Interac => e.tavv_cryptogram is Some,
            Layout::UkFps => false,
        }
    } else if f == 63 {
        l is Interac && e.domestic_settlement_data is Some
    } else if f == 102 {
        l is UkFps && e.source_account is Some
    } else if f == 103 {
        l is UkFps && e.destination_account is Some
    } else {
        universal_present(e, f)
    }
}

/// The encoding of field `f` of `e` in dialect `l`, when the field is written.
pub open spec fn layout_field_bytes(l: Layout, e: EventView, f: int) -> Seq<u8> {
    if f == 1 {
        Seq::empty()
    } else if f == 22 {
        seq![48u8, 55u8, 49u8]
    } else if f == 48 {
        opt_var(e.tavv_cryptogram, 3)
    } else if f == 63 {
        opt_var(e.domestic_settlement_data, 3)
    } else if f == 102 {
        opt_var(e.source_account, 2)
    } else if f == 103 {
        opt_var(e.destination_account, 2)
    } else {
        universal_field_bytes(e, f)
    }
}

/// The data fields of `e` before field `f`, in field order.
pub open spec fn layout_upto(l: Layout, e: EventView, f: int) -> Seq<u8>
    decreases f,
{
    if f <= 1 {
        Seq::empty()
    } else {
        layout_upto(l, e, f - 1) + seg(layout_present(l, e, f - 1), layout_field_bytes(l, e, f - 1))
    }
}

/// The data fields of `e` in dialect `l`.
pub open spec fn layout_payload(l: Layout, e: EventView) -> Seq<u8> {
    layout_upto(l, e, 129)
}

/// Where the data fields begin: after the MTI and one bitmap, or two when
/// bit 1 flags a secondary bitmap.
pub open spec fn layout_header_end(l: Layout, e: EventView) -> int {
    if layout_present(l, e, 1) {
        20
    } else {
        12
    }
}

/// `raw` is the encoding of `e` in dialect `l`: the MTI, the bitmaps flagging
/// exactly the written fields, then those fields in order.
pub open spec fn layout_encodes(l: Layout, e: EventView, raw: Seq<u8>) -> bool {
    let h = layout_header_end(l, e);
    &&& raw.len() >= h
    &&& raw.subrange(0, 4) == mti_out(e.mti)
    &&& bitmap_flags(raw.subrange(4, h), (h - 4) as nat, |g: int| layout_present(l, e, g))
    &&& raw.subrange(h, raw.len() as int) == layout_payload(l, e)
}

/// Only fields up to 64 are written, but for the account fields, which come
/// with bit 1.
pub(crate) proof fn lemma_present_range(l: Layout, e: EventView, g: int)
    requires
        layout_present(l, e, g),
    ensures
        1 <= g <= 128,
        g > 64 ==> (g == 102 || g == 103) && layout_present(l, e, 1),
{
}

/// The first eight bytes of a bitmap flag the same fields up to 64.
proof fn lemma_bitmap_prefix(bm: Seq<u8>, p: spec_fn(int) -> bool)
    requires
        bitmap_flags(bm, 16, p),
        forall|g: int| #[trigger] p(g) ==> 1 <= g <= 64,
    ensures
        bitmap_flags(bm.subrange(0, 8), 8, p),
{
    let b8 = bm.subrange(0, 8);
    assert forall|g: int| #[trigger] bit_is_set(b8, g) <==> (1 <= g <= 8 * 8 && p(g)) by {
        if 1 <= g <= 64 {
            assert(b8[(g - 1) / 8] == bm[(g - 1) / 8]);
            assert(bit_is_set(bm, g) == bit_is_set(b8, g));
        }
    }
}

/// Whether field `f` of `tx` is written in dialect `l`.
fn layout_is_present(l: Layout, tx: &UniversalPaymentEvent, f: usize) -> (r: bool)
    ensures
        r == layout_present(l, tx@, f as int),
{
    let fps = match l {
        Layout::UkFps => true,
        _ => false,
    };
    if f == 1 {
        fps && (tx.source_account.is_some() || tx.destination_account.is_some())
    } else if f == 2 {
        !fps && tx.fpan.len() > 0
    } else if f == 22 {
        tx.is_tokenized
    } else if f == 48 {
        match l {
            Layout::Standard => tx.is_tokenized && tx.tavv_cryptogram.is_some(),
            Layout::Interac => tx.tavv_cryptogram.is_some(),
            Layout::UkFps => false,
        }
    } else if f == 63 {
        match l {
            Layout::Interac => tx.domestic_settlement_data.is_some(),
            _ => false,
        }
    } else if f == 102 {
        fps && tx.source_account.is_some()
    } else if f == 103 {
        fps && tx.destination_account.is_some()
    } else if f == 3 || f == 4 || f == 11 || f == 12 || f == 13 || f == 32 || f == 37 || f == 39 || f == 52 {
        universal_is_present(tx, f)
    } else {
        false
    }
}

/// Appends an optional text as a variable field with an `ndigits`-digit prefix.
fn write_opt_var(payload: &mut Vec<u8>, o: &Option<String>, ndigits: usize)
    requires
        ndigits == 2 || ndigits == 3,
    ensures
        final(payload)@ == old(payload)@ + opt_var(crate::text::opt_chars(*o), ndigits as nat),
{
    match o {
        Some(s) => {
            if ndigits == 2 {
                write_llvar(payload, string_bytes(s));
            } else {
                write_lllvar(payload, string_bytes(s));
            }
        },
        None => {
            assert(payload@ =~= old(payload)@ + opt_var(crate::text::opt_chars(*o), ndigits as nat));
        },
    }
}

/// Appends the encoding of field `f` of `tx` in dialect `l`.
fn write_layout_field(l: Layout, tx: &UniversalPaymentEvent, f: usize, payload: &mut Vec<u8>)
    requires
        layout_present(l, tx@, f as int),
    ensures
        final(payload)@ == old(payload)@ + layout_field_bytes(l, tx@, f as int),
{
    if f == 1 {
        assert(payload@ =~= old(payload)@ + layout_field_bytes(l, tx@, f as int));
    } else if f == 22 {
        write_fixed(payload, &[48u8, 55u8, 49u8], 3, 48u8, false);
        assert(seq![48u8, 55u8, 49u8].take(3) =~= seq![48u8, 55u8, 49u8]);
    } else if f == 48 {
        write_opt_var(payload, &tx.tavv_cryptogram, 3);
    } else if f == 63 {
        write_opt_var(payload, &tx.domestic_settlement_data, 3);
    } else if f == 102 {
        write_opt_var(payload, &tx.source_account, 2);
    } else if f == 103 {
        write_opt_var(payload, &tx.destination_account, 2);
    } else {
        write_universal_field(tx, f, payload);
    }
}

/// Writes field `f` of `tx` and flags it in `bits`, when dialect `l` writes it.
fn encode_layout_field(l: Layout, tx: &UniversalPaymentEvent, f: usize, bits: &mut Vec<u8>, payload: &mut Vec<u8>)
    requires
        old(bits)@.len() == 16,
        1 <= f <= 128,
    ensures
        final(bits)@.len() == 16,
        forall|g: int| #[trigger] bit_is_set(final(bits)@, g) <==> ((g == f && layout_present(l, tx@, f as int))
            || bit_is_set(old(bits)@, g)),
        final(payload)@ == old(payload)@ + seg(layout_present(l, tx@, f as int), layout_field_bytes(l, tx@, f as int)),
{
    if !layout_is_present(l, tx, f) {
        assert(payload@ =~= old(payload)@ + seg(layout_present(l, tx@, f as int), layout_field_bytes(l, tx@, f as int)));
        return;
    }
    set_bit(bits, f);
    write_layout_field(l, tx, f, payload);
}

/// Encodes `tx` in dialect `l`.
fn build_layout(l: Layout, tx: &UniversalPaymentEvent) -> (out: Vec<u8>)
    ensures
        layout_encodes(l, tx@, out@),
{
    let ghost e = tx@;
    let mut bits = zero_bytes(16);
    let mut payload: Vec<u8> = Vec::new();
    let mut f: usize = 1;
    while f <= 128
        invariant
            1 <= f <= 129,
            e == tx@,
            bits@.len() == 16,
            forall|g: int| #[trigger] bit_is_set(bits@, g) <==> (1 <= g < f && layout_present(l, e, g)),
            payload@ == layout_upto(l, e, f as int),
        decreases 129 - f,
    {
        encode_layout_field(l, tx, f, &mut bits, &mut payload);
        f = f + 1;
    }
    proof {
        assert forall|g: int| #[trigger] bit_is_set(bits@, g) <==> (1 <= g <= 16 * 8 && layout_present(l, e, g)) by {
            if layout_present(l, e, g) {
                lemma_present_range(l, e, g);
            }
        }
    }
    let mut data: Vec<u8> = Vec::new();
    if tx.mti.len() >= 4 {
        append_bytes(&mut data, &tx.mti.as_slice()[0..4]);
    } else {
        append_bytes(&mut data, &[48u8, 49u8, 49u8, 48u8]);
    }
    let secondary = is_bit_set(bits.as_slice(), 1);
    assert(bitmap_flags(bits@, 16, |g: int| layout_present(l, e, g)));
    if secondary {
        append_bytes(&mut data, bits.as_slice());
        assert(data@.subrange(4, 20) =~= bits@);
    } else {
        append_bytes(&mut data, &bits.as_slice()[0..8]);
        proof {
            assert forall|g: int| #[trigger] layout_present(l, e, g) implies 1 <= g <= 64 by {
                lemma_present_range(l, e, g);
            }
            lemma_bitmap_prefix(bits@, |g: int| layout_present(l, e, g));
            assert(data@.subrange(4, 12) =~= bits@.subrange(0, 8));
        }
    }
    let ghost header = data@;
    let ghost h = data@.len();
    assert(bitmap_flags(header.subrange(4, h as int), (h - 4) as nat, |g: int| layout_present(l, e, g)));
    append_bytes(&mut data, payload.as_slice());
    assert(data@.subrange(0, 4) =~= mti_out(e.mti));
    assert(data@.subrange(h as int, data@.len() as int) =~= payload@);
    assert(data@.subrange(4, h as int) =~= header.subrange(4, h as int));
    data
}

/// A dialect: how a raw message is read into an event and an event written back.
pub trait DialectAdapter {
    /// The messages the dialect can read: it reads every message but those
    /// whose text it would have to cut inside a character.
    spec fn parses(&self, raw: Seq<u8>) -> bool;

    /// What reading `raw` gives.
    spec fn parse_result(&self, raw: Seq<u8>) -> Result<EventView, ParseError>;

    /// `raw` is how the dialect writes `e`.
    spec fn encodes(&self, e: EventView, raw: Seq<u8>) -> bool;

    fn parse(&self, raw_msg: &Iso8583Message) -> (r: Result<UniversalPaymentEvent, ParseError>)
        requires
            self.parses(raw_msg@),
        ensures
            event_result(r) == self.parse_result(raw_msg@),
    ;

    fn build_response(&self, event: &UniversalPaymentEvent) -> (m: Iso8583Message)
        ensures
            self.encodes(event@, m@),
    ;
}

/// The standard ISO 8583 dialect: the dictionary follows the MTI's version
/// digit, bitmaps chain through their first bit, and field 48 may carry a
/// network risk tag.
pub struct StandardDialect;

impl StandardDialect {
    /// Reads a message, or `None` where the risk tag of field 48 cannot be
    /// sliced at its positions 4, 7 and 8 (the text would be cut inside a
    /// character).
    pub fn checked_parse(&self, raw_msg: &Iso8583Message) -> (r: Option<Result<UniversalPaymentEvent, ParseError>>)
        ensures
            opt_event_result(r) == standard_parse(raw_msg@),
    {
        standard_parse_bytes(raw_msg.payload.as_slice())
    }
}

impl DialectAdapter for StandardDialect {
    open spec fn parses(&self, raw: Seq<u8>) -> bool {
        standard_parse(raw) is Some
    }

    open spec fn parse_result(&self, raw: Seq<u8>) -> Result<EventView, ParseError> {
        match standard_parse(raw) {
            Some(r) => r,
            None => Err(ParseError::InvalidFormat),
        }
    }

    open spec fn encodes(&self, e: EventView, raw: Seq<u8>) -> bool {
        layout_encodes(Layout::Standard, e, raw)
    }

    fn parse(&self, raw_msg: &Iso8583Message) -> (r: Result<UniversalPaymentEvent, ParseError>) {
        match standard_parse_bytes(raw_msg.payload.as_slice()) {
            Some(r) => r,
            None => Err(ParseError::InvalidFormat),
        }
    }

    fn build_response(&self, event: &UniversalPaymentEvent) -> (m: Iso8583Message) {
        Iso8583Message { payload: build_layout(Layout::Standard, event) }
    }
}

/// The Interac dialect: field 48 carries the cryptogram and field 63 the
/// domestic settlement data; a `0200` asks for instant clearing.
pub struct InteracDialect;

impl DialectAdapter for InteracDialect {
    open spec fn parses(&self, raw: Seq<u8>) -> bool {
        true
    }

    open spec fn parse_result(&self, raw: Seq<u8>) -> Result<EventView, ParseError> {
        interac_parse(raw)
    }

    open spec fn encodes(&self, e: EventView, raw: Seq<u8>) -> bool {
        layout_encodes(Layout::Interac, e, raw)
    }

    /// A message parsed asks for instant clearing exactly when its MTI is `0200`.
    fn parse(&self, raw_msg: &Iso8583Message) -> (r: Result<UniversalPaymentEvent, ParseError>)
        ensures
            r matches Ok(t) ==> t@.requires_instant_clearing == (raw_msg@.subrange(0, 4) == mti4('0', '2', '0', '0')),
    {
        interac_parse_bytes(raw_msg.payload.as_slice())
    }

    fn build_response(&self, event: &UniversalPaymentEvent) -> (m: Iso8583Message) {
        Iso8583Message { payload: build_layout(Layout::Interac, event) }
    }
}

/// The UK Faster Payments dialect: the source and destination accounts travel
/// in fields 102 and 103 of a secondary bitmap, and a payment without a PAN
/// is routed by its source account.
pub struct UkFpsDialect;

impl DialectAdapter for UkFpsDialect {
    open spec fn parses(&self, raw: Seq<u8>) -> bool {
        true
    }

    open spec fn parse_result(&self, raw: Seq<u8>) -> Result<EventView, ParseError> {
        fps_parse(raw)
    }

    open spec fn encodes(&self, e: EventView, raw: Seq<u8>) -> bool {
        layout_encodes(Layout::UkFps, e, raw)
    }

    fn parse(&self, raw_msg: &Iso8583Message) -> (r: Result<UniversalPaymentEvent, ParseError>) {
        fps_parse_bytes(raw_msg.payload.as_slice())
    }

    fn build_response(&self, event: &UniversalPaymentEvent) -> (m: Iso8583Message) {
        Iso8583Message { payload: build_layout(Layout::UkFps, event) }
    }
}

} // verus!
