//! Reading back what a dialect wrote: for the standard, Interac and UK Faster
//! Payments dialects, parsing the encoding of an event gives the fields the
//! dialect carries.
use vstd::prelude::*;
use vstd::utf8::encode_utf8;
use crate::canonical::{class_of_mti, EventView};
use crate::dialect::{
    blank_event, lemma_field_roundtrip, mti_out, seg, universal_field_bytes, universal_present, universal_set,
    universal_wf,
};
use crate::iso_fields::{bit_is_set, field_mask, lemma_pow10_small, spec_var, ParseError};
use crate::numeric::{lemma_decimal_digits_len, lemma_zero_padded_parses, zero_padded};
use crate::proto::{
    fps_parse, fps_prefix, interac_blank, interac_parse, layout_encodes, layout_field_bytes, layout_field_type,
    layout_header_end, layout_present, layout_skips, layout_step, layout_upto, layout_walk, read_by_type,
    risk_tagged, standard_parse, std_blank, std_field48, text_bytes, FieldType, Layout, common_apply,
    is_token_entry, iso1987_field_type, layout_apply,
};
use crate::text::{all_ascii, decode_lossy, lemma_ascii_utf8, lemma_decode_encoded};

verus! {

/// An optional text whose UTF-8 encoding has at most `n` bytes.
pub open spec fn opt_fits(o: Option<Seq<char>>, n: nat) -> bool {
    match o {
        Some(s) => encode_utf8(s).len() <= n,
        None => true,
    }
}

/// The fields of `e` that dialect `l` writes fit their layouts exactly: a
/// four-byte MTI, fixed fields empty or of their exact width, an amount of
/// at most twelve digits, variable fields within what their length prefix
/// can state, and (standard dialect) a cryptogram that does not read as a
/// risk tag.
pub open spec fn layout_wf(l: Layout, e: EventView) -> bool {
    &&& e.mti.len() == 4
    &&& (!(l is UkFps) ==> e.fpan.len() <= 99)
    &&& e.acquirer_id.len() <= 99
    &&& (e.processing_code.len() == 0 || encode_utf8(e.processing_code).len() == 6)
    &&& (e.stan.len() == 0 || encode_utf8(e.stan).len() == 6)
    &&& (e.local_time.len() == 0 || encode_utf8(e.local_time).len() == 6)
    &&& (e.local_date.len() == 0 || encode_utf8(e.local_date).len() == 4)
    &&& (e.rrn.len() == 0 || encode_utf8(e.rrn).len() == 12)
    &&& (e.response_code.len() == 0 || encode_utf8(e.response_code).len() == 2)
    &&& (e.pin_block.len() == 0 || e.pin_block.len() == 16)
    &&& e.amount < 1_000_000_000_000
    &&& match l {
        Layout::Standard => e.is_tokenized ==> match e.tavv_cryptogram {
            Some(c) => encode_utf8(c).len() <= 999 && !risk_tagged(encode_utf8(c)),
            None => true,
        },
        Layout::Interac => opt_fits(e.tavv_cryptogram, 999) && opt_fits(e.domestic_settlement_data, 999),
        Layout::UkFps => opt_fits(e.source_account, 99) && opt_fits(e.destination_account, 99),
    }
}

/// The event a dialect starts reading from, given the MTI.
pub open spec fn layout_start(l: Layout, mti: Seq<u8>) -> EventView {
    match l {
        Layout::Standard => std_blank(mti),
        Layout::Interac => interac_blank(mti),
        Layout::UkFps => blank_event(mti, class_of_mti(text_bytes(mti))),
    }
}

/// The PAN a UK Faster Payments message without field 2 is routed by.
pub open spec fn fps_pan(src: Option<Seq<char>>) -> Seq<u8> {
    match src {
        Some(s) => fps_prefix() + encode_utf8(s),
        None => Seq::empty(),
    }
}

/// What dialect `l` keeps of `e`: the fields it writes, with what its MTI
/// gives the dialect and every other field at its default.
pub open spec fn layout_projection(l: Layout, e: EventView) -> EventView {
    let b = layout_start(l, e.mti);
    EventView {
        fpan: if l is UkFps { fps_pan(e.source_account) } else { e.fpan },
        processing_code: e.processing_code,
        amount: e.amount,
        stan: e.stan,
        local_time: e.local_time,
        local_date: e.local_date,
        is_tokenized: e.is_tokenized,
        acquirer_id: e.acquirer_id,
        rrn: e.rrn,
        response_code: e.response_code,
        tavv_cryptogram: match l {
            Layout::Standard => if e.is_tokenized { e.tavv_cryptogram } else { None },
            Layout::Interac => e.tavv_cryptogram,
            Layout::UkFps => None,
        },
        pin_block: e.pin_block,
        domestic_settlement_data: if l is Interac { e.domestic_settlement_data } else { None },
        source_account: if l is UkFps { e.source_account } else { None },
        destination_account: if l is UkFps { e.destination_account } else { None },
        ..b
    }
}

/// What reading has made of `e`'s encoding once the fields before `f` are read.
pub open spec fn layout_partial(l: Layout, e: EventView, f: int) -> EventView {
    let b = layout_start(l, e.mti);
    EventView {
        fpan: if f > 2 && layout_present(l, e, 2) {
            e.fpan
        } else if f > 102 && layout_present(l, e, 102) {
            fps_pan(e.source_account)
        } else {
            b.fpan
        },
        processing_code: if f > 3 && layout_present(l, e, 3) { e.processing_code } else { b.processing_code },
        amount: if f > 4 && layout_present(l, e, 4) { e.amount } else { b.amount },
        stan: if f > 11 && layout_present(l, e, 11) { e.stan } else { b.stan },
        local_time: if f > 12 && layout_present(l, e, 12) { e.local_time } else { b.local_time },
        local_date: if f > 13 && layout_present(l, e, 13) { e.local_date } else { b.local_date },
        is_tokenized: if f > 22 && layout_present(l, e, 22) { true } else { b.is_tokenized },
        acquirer_id: if f > 32 && layout_present(l, e, 32) { e.acquirer_id } else { b.acquirer_id },
        rrn: if f > 37 && layout_present(l, e, 37) { e.rrn } else { b.rrn },
        response_code: if f > 39 && layout_present(l, e, 39) { e.response_code } else { b.response_code },
        tavv_cryptogram: if f > 48 && layout_present(l, e, 48) { e.tavv_cryptogram } else { b.tavv_cryptogram },
        pin_block: if f > 52 && layout_present(l, e, 52) { e.pin_block } else { b.pin_block },
        domestic_settlement_data: if f > 63 && layout_present(l, e, 63) {
            e.domestic_settlement_data
        } else {
            b.domestic_settlement_data
        },
        source_account: if f > 102 && layout_present(l, e, 102) { e.source_account } else { b.source_account },
        destination_account: if f > 103 && layout_present(l, e, 103) {
            e.destination_account
        } else {
            b.destination_account
        },
        ..b
    }
}

/// Reading field `f` of `e`'s encoding into `st`.
pub open spec fn layout_set(st: EventView, e: EventView, f: int) -> EventView {
    if f == 22 {
        EventView { is_tokenized: true, ..st }
    } else if f == 48 {
        EventView { tavv_cryptogram: e.tavv_cryptogram, ..st }
    } else if f == 63 {
        EventView { domestic_settlement_data: e.domestic_settlement_data, ..st }
    } else if f == 102 {
        EventView {
            source_account: e.source_account,
            fpan: if st.fpan.len() == 0 { fps_pan(e.source_account) } else { st.fpan },
            ..st
        }
    } else if f == 103 {
        EventView { destination_account: e.destination_account, ..st }
    } else {
        universal_set(st, e, f)
    }
}

/// The last field a dialect reads.
pub open spec fn layout_last(l: Layout) -> int {
    if l is UkFps {
        128
    } else {
        64
    }
}

proof fn lemma_partial_step(l: Layout, e: EventView, f: int)
    requires
        1 <= f,
    ensures
        layout_partial(l, e, f + 1) == (if layout_present(l, e, f) && f != 1 {
            layout_set(layout_partial(l, e, f), e, f)
        } else {
            layout_partial(l, e, f)
        }),
{
    let a = layout_partial(l, e, f + 1);
    let b = if layout_present(l, e, f) && f != 1 {
        layout_set(layout_partial(l, e, f), e, f)
    } else {
        layout_partial(l, e, f)
    };
    assert(a =~= b);
}

proof fn lemma_partial_projection(l: Layout, e: EventView)
    ensures
        layout_partial(l, e, layout_last(l) + 1) == layout_projection(l, e),
{
    let p = layout_partial(l, e, layout_last(l) + 1);
    let q = layout_projection(l, e);
    if !universal_present(e, 2) { assert(e.fpan =~= Seq::<u8>::empty()); }
    if !universal_present(e, 3) { assert(e.processing_code =~= Seq::<char>::empty()); }
    if !universal_present(e, 11) { assert(e.stan =~= Seq::<char>::empty()); }
    if !universal_present(e, 12) { assert(e.local_time =~= Seq::<char>::empty()); }
    if !universal_present(e, 13) { assert(e.local_date =~= Seq::<char>::empty()); }
    if !universal_present(e, 32) { assert(e.acquirer_id =~= Seq::<u8>::empty()); }
    if !universal_present(e, 37) { assert(e.rrn =~= Seq::<char>::empty()); }
    if !universal_present(e, 39) { assert(e.response_code =~= Seq::<char>::empty()); }
    if !universal_present(e, 52) { assert(e.pin_block =~= Seq::<u8>::empty()); }
    assert(p =~= q);
}

proof fn lemma_upto_prefix(l: Layout, e: EventView, f: int, g: int)
    requires
        1 <= f <= g,
    ensures
        layout_upto(l, e, f).len() <= layout_upto(l, e, g).len(),
        layout_upto(l, e, g).subrange(0, layout_upto(l, e, f).len() as int) == layout_upto(l, e, f),
    decreases g - f,
{
    if f < g {
        lemma_upto_prefix(l, e, f, g - 1);
        let a = layout_upto(l, e, g - 1);
        let b = layout_upto(l, e, g);
        assert(b.subrange(0, a.len() as int) =~= a);
        assert(b.subrange(0, layout_upto(l, e, f).len() as int) =~= a.subrange(
            0,
            layout_upto(l, e, f).len() as int,
        ));
    } else {
        assert(layout_upto(l, e, g).subrange(0, layout_upto(l, e, g).len() as int) =~= layout_upto(l, e, g));
    }
}

proof fn lemma_upto_beyond(l: Layout, e: EventView, f: int)
    requires
        layout_last(l) + 1 <= f <= 129,
    ensures
        layout_upto(l, e, f) == layout_upto(l, e, layout_last(l) + 1),
    decreases f,
{
    if f > layout_last(l) + 1 {
        lemma_upto_beyond(l, e, f - 1);
        assert(!layout_present(l, e, f - 1));
        assert(layout_upto(l, e, f) =~= layout_upto(l, e, f - 1));
    }
}

/// The universal fields of `e`, with its PAN left out where the dialect
/// does not write it.
pub open spec fn universal_part(l: Layout, e: EventView) -> EventView {
    if l is UkFps {
        EventView { fpan: Seq::empty(), ..e }
    } else {
        e
    }
}

proof fn lemma_text_field(c: Seq<char>, ndigits: nat, raw: Seq<u8>, off: int)
    requires
        ndigits == 2 || ndigits == 3,
        encode_utf8(c).len() < crate::numeric::pow10(ndigits),
        0 <= off,
        off + spec_var(encode_utf8(c), ndigits).len() <= raw.len(),
        raw.subrange(off, off + spec_var(encode_utf8(c), ndigits).len()) == spec_var(encode_utf8(c), ndigits),
    ensures
        crate::iso_fields::spec_read_var(raw, off, ndigits as int) == Ok::<(Seq<u8>, int), ParseError>(
            (encode_utf8(c), off + spec_var(encode_utf8(c), ndigits).len()),
        ),
        decode_lossy(encode_utf8(c)) == c,
{
    let v = encode_utf8(c);
    lemma_pow10_small();
    lemma_zero_padded_parses(v.len(), ndigits);
    lemma_decimal_digits_len(v.len(), ndigits, crate::numeric::pow10(ndigits));
    let z = zero_padded(v.len(), ndigits);
    let fb = spec_var(v, ndigits);
    assert(z.len() == ndigits);
    assert(fb =~= z + v);
    assert(raw.subrange(off, off + ndigits) =~= fb.subrange(0, ndigits as int));
    assert(fb.subrange(0, ndigits as int) =~= z);
    assert(raw.subrange(off + ndigits, off + ndigits + v.len()) =~= fb.subrange(ndigits as int, fb.len() as int));
    assert(fb.subrange(ndigits as int, fb.len() as int) =~= v);
    lemma_decode_encoded(c);
}

proof fn lemma_layout_field(l: Layout, e: EventView, raw: Seq<u8>, flag1: bool, f: int, off: int, st: EventView)
    requires
        layout_wf(l, e),
        layout_present(l, e, f),
        f != 1,
        f <= layout_last(l),
        0 <= off,
        off + layout_field_bytes(l, e, f).len() <= raw.len(),
        raw.subrange(off, off + layout_field_bytes(l, e, f).len()) == layout_field_bytes(l, e, f),
        f == 48 ==> st.is_tokenized == e.is_tokenized,
    ensures
        layout_step(l, raw, flag1, f, off, st) == Some(
            Ok::<(int, EventView), ParseError>((off + layout_field_bytes(l, e, f).len(), layout_set(st, e, f))),
        ),
{
    let fb = layout_field_bytes(l, e, f);
    if f == 22 {
        let v = seq![48u8, 55u8, 49u8];
        assert(fb == v);
        assert(raw.subrange(off, off + 3) =~= v);
        assert(all_ascii(v)) by {
            assert forall|i: int| 0 <= i < v.len() implies #[trigger] v[i] < 128 by {}
        }
        lemma_ascii_utf8(v);
        assert(crate::text::ascii_chars(v) =~= seq!['0', '7', '1']);
        assert(text_bytes(v) == v);
        assert(is_token_entry(v));
        assert(common_apply(22, v, st) =~= layout_set(st, e, 22));
    } else if f == 48 {
        let c = e.tavv_cryptogram->0;
        lemma_pow10_small();
        lemma_text_field(c, 3, raw, off);
        if l is Standard {
            let s = decode_lossy(encode_utf8(c));
            assert(s == c);
            assert(std_field48(encode_utf8(c), st) == Some(layout_set(st, e, f)));
        } else {
            assert(layout_apply(l, flag1, f, encode_utf8(c), st) == Some(layout_set(st, e, f)));
        }
    } else if f == 63 || f == 102 || f == 103 {
        let c = if f == 63 {
            e.domestic_settlement_data->0
        } else if f == 102 {
            e.source_account->0
        } else {
            e.destination_account->0
        };
        let nd: nat = if f == 63 { 3 } else { 2 };
        lemma_pow10_small();
        lemma_text_field(c, nd, raw, off);
        assert(layout_apply(l, flag1, f, encode_utf8(c), st) =~= Some(layout_set(st, e, f)));
    } else {
        let u = universal_part(l, e);
        assert(universal_wf(u));
        assert(universal_present(u, f));
        assert(universal_field_bytes(u, f) == fb);
        lemma_field_roundtrip(u, raw, f, off, st);
        assert(universal_set(st, u, f) == universal_set(st, e, f));
        assert(layout_field_type(l, f) == iso1987_field_type(f));
    }
}

proof fn lemma_field_slice(l: Layout, e: EventView, raw: Seq<u8>, f: int)
    requires
        layout_encodes(l, e, raw),
        1 <= f <= 128,
    ensures
        ({
            let h = layout_header_end(l, e);
            let off = h + layout_upto(l, e, f).len();
            let fb = seg(layout_present(l, e, f), layout_field_bytes(l, e, f));
            &&& off + fb.len() <= raw.len()
            &&& raw.subrange(off, off + fb.len()) == fb
            &&& layout_upto(l, e, f + 1) == layout_upto(l, e, f) + fb
        }),
{
    let h = layout_header_end(l, e);
    let pre = layout_upto(l, e, f);
    let off: int = h + pre.len() as int;
    let fb = seg(layout_present(l, e, f), layout_field_bytes(l, e, f));
    lemma_upto_prefix(l, e, f + 1, 129);
    let full = layout_upto(l, e, 129);
    let up = layout_upto(l, e, f + 1);
    assert(up =~= pre + fb);
    assert(raw.subrange(h, raw.len() as int) == full);
    assert(raw.subrange(off, off + fb.len() as int) =~= fb) by {
        assert forall|i: int| 0 <= i < fb.len() implies raw.subrange(off, off + fb.len() as int)[i] == fb[i] by {
            let k = pre.len() + i;
            assert(raw[h + k] == raw.subrange(h, raw.len() as int)[k]);
            assert(full[k] == full.subrange(0, up.len() as int)[k]);
            assert(up[k] == fb[i]);
        }
    }
}

proof fn lemma_walk_step(l: Layout, e: EventView, raw: Seq<u8>, f: int)
    requires
        layout_wf(l, e),
        layout_encodes(l, e, raw),
        1 <= f <= layout_last(l),
    ensures
        ({
            let h = layout_header_end(l, e);
            let bits = raw.subrange(4, h);
            layout_walk(l, raw, bits, layout_last(l), f, h + layout_upto(l, e, f).len() as int, layout_partial(l, e, f))
                == layout_walk(
                l,
                raw,
                bits,
                layout_last(l),
                f + 1,
                h + layout_upto(l, e, f + 1).len() as int,
                layout_partial(l, e, f + 1),
            )
        }),
{
    let h = layout_header_end(l, e);
    let bits = raw.subrange(4, h);
    let off: int = h + layout_upto(l, e, f).len() as int;
    lemma_partial_step(l, e, f);
    lemma_field_slice(l, e, raw, f);
    assert(bit_is_set(bits, f) == layout_present(l, e, f)) by {
        if layout_present(l, e, f) {
            crate::proto::lemma_present_range(l, e, f);
        }
    }
    assert(bit_is_set(bits, 1) == layout_present(l, e, 1));
    if layout_present(l, e, f) && !layout_skips(l, f) {
        if f == 1 {
            assert(layout_field_bytes(l, e, f) =~= Seq::<u8>::empty());
        } else {
            lemma_layout_field(l, e, raw, layout_present(l, e, 1), f, off, layout_partial(l, e, f));
        }
    }
}

proof fn lemma_layout_walk(l: Layout, e: EventView, raw: Seq<u8>, f: int)
    requires
        layout_wf(l, e),
        layout_encodes(l, e, raw),
        1 <= f <= layout_last(l) + 1,
    ensures
        layout_walk(
            l,
            raw,
            raw.subrange(4, layout_header_end(l, e)),
            layout_last(l),
            f,
            layout_header_end(l, e) + layout_upto(l, e, f).len() as int,
            layout_partial(l, e, f),
        ) == Some(Ok::<EventView, ParseError>(layout_partial(l, e, layout_last(l) + 1))),
    decreases layout_last(l) + 1 - f,
{
    if f <= layout_last(l) {
        lemma_layout_walk(l, e, raw, f + 1);
        lemma_walk_step(l, e, raw, f);
    }
}

proof fn lemma_roundtrip(l: Layout, e: EventView, raw: Seq<u8>)
    requires
        layout_wf(l, e),
        layout_encodes(l, e, raw),
    ensures
        layout_walk(l, raw, raw.subrange(4, layout_header_end(l, e)), layout_last(l), 1, layout_header_end(l, e), layout_start(l, raw.subrange(0, 4)))
            == Some(Ok::<EventView, ParseError>(layout_projection(l, e))),
        raw.subrange(0, 4) == e.mti,
{
    lemma_layout_walk(l, e, raw, 1);
    lemma_partial_projection(l, e);
    assert(raw.subrange(0, 4) =~= e.mti);
    assert(layout_partial(l, e, 1) =~= layout_start(l, e.mti));
}

/// Reading back what the standard dialect wrote gives what it carries: for an
/// event whose fields fit the dialect, parsing its encoding succeeds with the
/// event's fields, its MTI's class and reversal flag, and defaults elsewhere.
pub proof fn law_standard_roundtrip(e: EventView, raw: Seq<u8>)
    requires
        layout_wf(Layout::Standard, e),
        layout_encodes(Layout::Standard, e, raw),
    ensures
        standard_parse(raw) == Some(Ok::<EventView, ParseError>(layout_projection(Layout::Standard, e))),
{
    lemma_roundtrip(Layout::Standard, e, raw);
    let bits = raw.subrange(4, 12);
    assert(!bit_is_set(bits, 1));
    assert(field_mask(1) == 0x80u8) by (bit_vector);
    assert(raw[4] == bits[0]);
    assert(crate::proto::std_bitmap(raw) == Ok::<Seq<u8>, ParseError>(bits));
}

/// Reading back what the Interac dialect wrote gives what it carries.
pub proof fn law_interac_roundtrip(e: EventView, raw: Seq<u8>)
    requires
        layout_wf(Layout::Interac, e),
        layout_encodes(Layout::Interac, e, raw),
    ensures
        interac_parse(raw) == Ok::<EventView, ParseError>(layout_projection(Layout::Interac, e)),
{
    lemma_roundtrip(Layout::Interac, e, raw);
}

/// For an MTI that is valid UTF-8, reading back what the Interac dialect
/// wrote asks for instant clearing exactly when the MTI is `0200`.
pub proof fn law_interac_instant_clearing(e: EventView, raw: Seq<u8>)
    requires
        layout_wf(Layout::Interac, e),
        layout_encodes(Layout::Interac, e, raw),
        vstd::utf8::valid_utf8(e.mti),
    ensures
        interac_parse(raw) is Ok,
        interac_parse(raw)->Ok_0.requires_instant_clearing == (e.mti == crate::canonical::mti4('0', '2', '0', '0')),
{
    law_interac_roundtrip(e, raw);
    vstd::utf8::decode_utf8_encode_utf8(e.mti);
}

/// Reading back what the UK Faster Payments dialect wrote gives what it
/// carries; a payment is routed by its source account.
pub proof fn law_fps_roundtrip(e: EventView, raw: Seq<u8>)
    requires
        layout_wf(Layout::UkFps, e),
        layout_encodes(Layout::UkFps, e, raw),
    ensures
        fps_parse(raw) == Ok::<EventView, ParseError>(layout_projection(Layout::UkFps, e)),
{
    lemma_roundtrip(Layout::UkFps, e, raw);
    let h = layout_header_end(Layout::UkFps, e);
    assert(bit_is_set(raw.subrange(4, h), 1) == layout_present(Layout::UkFps, e, 1));
    assert(raw.subrange(4, 12)[0] == raw.subrange(4, h)[0]);
    assert(bit_is_set(raw.subrange(4, 12), 1) == bit_is_set(raw.subrange(4, h), 1));
}

} // verus!
