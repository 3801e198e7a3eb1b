//! ISO 8583 field primitives: bitmaps, fixed and length-prefixed fields.
use vstd::prelude::*;
use crate::numeric::{
    all_digits, append_bytes, append_repeat, digits_value, is_digit, parse_u64, parse_unsigned, pow10,
    repeat_byte, zero_padded, zero_padded_text,
};

verus! {

/// Why a message could not be read.
#[derive(Debug, Clone, Copy, PartialEq, Eq, Structural)]
pub enum ParseError {
    InvalidFormat,
    UnknownMTI,
    LengthError,
}

impl ParseError {
    /// The message the error is shown with.
    pub fn message(&self) -> (r: &'static str)
        ensures
            r@ == (match *self {
                ParseError::InvalidFormat => "Invalid Format"@,
                ParseError::UnknownMTI => "Unknown MTI"@,
                ParseError::LengthError => "Length Error Parsing Data"@,
            }),
    {
        match self {
            ParseError::InvalidFormat => "Invalid Format",
            ParseError::UnknownMTI => "Unknown MTI",
            ParseError::LengthError => "Length Error Parsing Data",
        }
    }
}

/// The mask of `field` within its bitmap byte (field 1 is the high bit of byte 0).
pub open spec fn field_mask(field: int) -> u8 {
    (0x80u8 >> (((field - 1) % 8) as u8)) as u8
}

/// Field `field` is flagged present in `bitmap` (fields are numbered from 1).
pub open spec fn bit_is_set(bitmap: Seq<u8>, field: int) -> bool {
    1 <= field <= bitmap.len() * 8 && (bitmap[(field - 1) / 8] & field_mask(field)) != 0
}

proof fn lemma_or_mask(b: u8, j: u8, k: u8)
    requires
        j < 8,
        k < 8,
    ensures
        ((b | (0x80u8 >> j)) & (0x80u8 >> k)) != 0 <==> (j == k || (b & (0x80u8 >> k)) != 0),
{
    assert(((b | (0x80u8 >> j)) & (0x80u8 >> k)) != 0 <==> (j == k || (b & (0x80u8 >> k)) != 0))
        by (bit_vector)
        requires
            j < 8,
            k < 8,
    ;
}

/// Setting a field's bit flags that field and leaves every other field as it was.
pub proof fn lemma_set_bit_effect(old_bm: Seq<u8>, new_bm: Seq<u8>, field: int)
    requires
        1 <= field <= old_bm.len() * 8,
        new_bm == old_bm.update((field - 1) / 8, (old_bm[(field - 1) / 8] | field_mask(field)) as u8),
    ensures
        forall|g: int| #[trigger] bit_is_set(new_bm, g) <==> (g == field || bit_is_set(old_bm, g)),
{
    assert forall|g: int| #[trigger] bit_is_set(new_bm, g) <==> (g == field || bit_is_set(old_bm, g)) by {
        if 1 <= g <= old_bm.len() * 8 {
            let i = (field - 1) / 8;
            let k = (g - 1) / 8;
            let jf = ((field - 1) % 8) as u8;
            let jg = ((g - 1) % 8) as u8;
            if k == i {
                lemma_or_mask(old_bm[i], jf, jg);
                assert(g == field <==> jf == jg);
            }
        }
    }
}

/// Flags `field` present in `bitmap`; a field outside the bitmap is ignored.
pub fn set_bit(bitmap: &mut Vec<u8>, field: usize)
    ensures
        1 <= field <= old(bitmap)@.len() * 8 ==> final(bitmap)@ == old(bitmap)@.update(
            (field - 1) / 8,
            (old(bitmap)@[(field - 1) / 8] | field_mask(field as int)) as u8,
        ),
        !(1 <= field <= old(bitmap)@.len() * 8) ==> final(bitmap)@ == old(bitmap)@,
        forall|g: int| #[trigger]
            bit_is_set(final(bitmap)@, g) <==> ((g == field && 1 <= field <= old(bitmap)@.len() * 8)
                || bit_is_set(old(bitmap)@, g)),
        final(bitmap)@.len() == old(bitmap)@.len(),
{
    if field < 1 || (field - 1) / 8 >= bitmap.len() {
        return;
    }
    let byte_index = (field - 1) / 8;
    let bit_index = ((field - 1) % 8) as u8;
    let b = bitmap[byte_index] | (0x80u8 >> bit_index);
    bitmap.set(byte_index, b);
    proof {
        lemma_set_bit_effect(old(bitmap)@, bitmap@, field as int);
    }
}

/// Whether `field` is flagged present in `bitmap`.
pub fn is_bit_set(bitmap: &[u8], field: usize) -> (r: bool)
    ensures
        r == bit_is_set(bitmap@, field as int),
{
    if field < 1 || (field - 1) / 8 >= bitmap.len() {
        return false;
    }
    let byte_index = (field - 1) / 8;
    let bit_index = ((field - 1) % 8) as u8;
    (bitmap[byte_index] & (0x80u8 >> bit_index)) != 0
}

/// Reading `len` bytes at `off`: the bytes and the offset after them.
pub open spec fn spec_read_fixed(data: Seq<u8>, off: int, len: int) -> Result<(Seq<u8>, int), ParseError> {
    if off + len > data.len() {
        Err(ParseError::LengthError)
    } else {
        Ok((data.subrange(off, off + len), off + len))
    }
}

/// Reading a field whose length stands before it in `ndigits` decimal digits.
pub open spec fn spec_read_var(data: Seq<u8>, off: int, ndigits: int) -> Result<(Seq<u8>, int), ParseError> {
    if off + ndigits > data.len() {
        Err(ParseError::LengthError)
    } else {
        match parse_unsigned(data.subrange(off, off + ndigits)) {
            None => Err(ParseError::InvalidFormat),
            Some(n) => spec_read_fixed(data, off + ndigits, n as int),
        }
    }
}

/// Where the offset stands after a failed read of a variable field: past the
/// length prefix when the prefix was there, else where it was.
pub open spec fn var_failed_offset(data: Seq<u8>, off: int, ndigits: int) -> int {
    if off + ndigits <= data.len() {
        off + ndigits
    } else {
        off
    }
}

/// Reads `len` bytes at `*offset` and moves the offset past them.
pub fn read_fixed<'a>(data: &'a [u8], offset: &mut usize, len: usize) -> (r: Result<&'a [u8], ParseError>)
    ensures
        match spec_read_fixed(data@, *old(offset) as int, len as int) {
            Ok((v, next)) => r matches Ok(rv) && rv@ == v && *final(offset) == next,
            Err(e) => r == Err::<&[u8], ParseError>(e) && *final(offset) == *old(offset),
        },
{
    if len > data.len() || *offset > data.len() - len {
        return Err(ParseError::LengthError);
    }
    let val = &data[*offset..*offset + len];
    *offset = *offset + len;
    Ok(val)
}

fn read_var<'a>(data: &'a [u8], offset: &mut usize, ndigits: usize) -> (r: Result<&'a [u8], ParseError>)
    requires
        ndigits <= 3,
    ensures
        match spec_read_var(data@, *old(offset) as int, ndigits as int) {
            Ok((v, next)) => r matches Ok(rv) && rv@ == v && *final(offset) == next,
            Err(e) => r == Err::<&[u8], ParseError>(e) && *final(offset) == var_failed_offset(
                data@,
                *old(offset) as int,
                ndigits as int,
            ),
        },
        *old(offset) <= data@.len() ==> *final(offset) <= data@.len(),
{
    let len_text = read_fixed(data, offset, ndigits)?;
    proof {
        lemma_parse_small(len_text@);
    }
    let len = match parse_u64(len_text) {
        Some(n) => n,
        None => {
            return Err(ParseError::InvalidFormat);
        },
    };
    read_fixed(data, offset, len as usize)
}

proof fn lemma_parse_small(s: Seq<u8>)
    requires
        s.len() <= 3,
    ensures
        parse_unsigned(s) matches Some(v) ==> v < 1000,
{
    let d = if s.len() > 0 && s[0] == 43u8 { s.drop_first() } else { s };
    if d.len() > 0 && all_digits(d) {
        lemma_digits_bound(d);
        lemma_pow10_small();
        assert(pow10(0) == 1);
        assert(pow10(d.len()) <= 1000);
    }
}

proof fn lemma_digits_bound(d: Seq<u8>)
    requires
        all_digits(d),
    ensures
        digits_value(d) < pow10(d.len()),
    decreases d.len(),
{
    if d.len() > 0 {
        let p = d.drop_last();
        assert(all_digits(p)) by {
            assert forall|i: int| 0 <= i < p.len() implies is_digit(#[trigger] p[i]) by {
                assert(p[i] == d[i]);
            }
        }
        lemma_digits_bound(p);
        assert(is_digit(d[d.len() - 1]));
        assert(pow10(d.len()) == 10 * pow10(p.len()));
    }
}

/// Reads a field with a two-digit length prefix.
pub fn read_llvar<'a>(data: &'a [u8], offset: &mut usize) -> (r: Result<&'a [u8], ParseError>)
    ensures
        match spec_read_var(data@, *old(offset) as int, 2) {
            Ok((v, next)) => r matches Ok(rv) && rv@ == v && *final(offset) == next,
            Err(e) => r == Err::<&[u8], ParseError>(e) && *final(offset) == var_failed_offset(data@, *old(offset) as int, 2),
        },
        *old(offset) <= data@.len() ==> *final(offset) <= data@.len(),
{
    read_var(data, offset, 2)
}

/// Reads a field with a three-digit length prefix.
pub fn read_lllvar<'a>(data: &'a [u8], offset: &mut usize) -> (r: Result<&'a [u8], ParseError>)
    ensures
        match spec_read_var(data@, *old(offset) as int, 3) {
            Ok((v, next)) => r matches Ok(rv) && rv@ == v && *final(offset) == next,
            Err(e) => r == Err::<&[u8], ParseError>(e) && *final(offset) == var_failed_offset(data@, *old(offset) as int, 3),
        },
        *old(offset) <= data@.len() ==> *final(offset) <= data@.len(),
{
    read_var(data, offset, 3)
}

/// A fixed-width field: `val` cut to `len` bytes, or padded with `pad` to `len`
/// bytes on the right or on the left.
pub open spec fn spec_fixed(val: Seq<u8>, len: nat, pad: u8, pad_right: bool) -> Seq<u8> {
    if val.len() >= len {
        val.take(len as int)
    } else if pad_right {
        val + repeat_byte(pad, (len - val.len()) as nat)
    } else {
        repeat_byte(pad, (len - val.len()) as nat) + val
    }
}

/// A variable field with its `ndigits`-digit length prefix; nothing when the
/// value is longer than the prefix can state.
pub open spec fn spec_var(val: Seq<u8>, ndigits: nat) -> Seq<u8> {
    if val.len() >= pow10(ndigits) {
        Seq::empty()
    } else {
        zero_padded(val.len(), ndigits) + val
    }
}

/// The powers of ten that length prefixes use.
pub proof fn lemma_pow10_small()
    ensures
        pow10(1) == 10,
        pow10(2) == 100,
        pow10(3) == 1000,
        pow10(12) == 1_000_000_000_000,
{
    reveal_with_fuel(pow10, 13);
}

/// Appends `val` as a fixed-width field of `len` bytes.
pub fn write_fixed(bytes: &mut Vec<u8>, val: &[u8], len: usize, pad_char: u8, pad_right: bool)
    ensures
        final(bytes)@ == old(bytes)@ + spec_fixed(val@, len as nat, pad_char, pad_right),
{
    if val.len() >= len {
        append_bytes(bytes, &val[0..len]);
        assert(val@.subrange(0, len as int) =~= val@.take(len as int));
    } else {
        let padding = len - val.len();
        if pad_right {
            append_bytes(bytes, val);
            append_repeat(bytes, pad_char, padding);
        } else {
            append_repeat(bytes, pad_char, padding);
            append_bytes(bytes, val);
        }
        assert(final(bytes)@ =~= old(bytes)@ + spec_fixed(val@, len as nat, pad_char, pad_right)) by {
        }
    }
}

/// Appends `val` with a two-digit length prefix; a value over 99 bytes is not written.
pub fn write_llvar(bytes: &mut Vec<u8>, val: &[u8])
    ensures
        final(bytes)@ == old(bytes)@ + spec_var(val@, 2),
{
    proof {
        lemma_pow10_small();
    }
    let len = val.len();
    if len > 99 {
        assert(final(bytes)@ =~= old(bytes)@ + spec_var(val@, 2));
        return;
    }
    let prefix = zero_padded_text(len as u64, 2);
    append_bytes(bytes, prefix.as_slice());
    append_bytes(bytes, val);
    assert(final(bytes)@ =~= old(bytes)@ + spec_var(val@, 2));
}

/// Appends `val` with a three-digit length prefix; a value over 999 bytes is not written.
pub fn write_lllvar(bytes: &mut Vec<u8>, val: &[u8])
    ensures
        final(bytes)@ == old(bytes)@ + spec_var(val@, 3),
{
    proof {
        lemma_pow10_small();
    }
    let len = val.len();
    if len > 999 {
        assert(final(bytes)@ =~= old(bytes)@ + spec_var(val@, 3));
        return;
    }
    let prefix = zero_padded_text(len as u64, 3);
    append_bytes(bytes, prefix.as_slice());
    append_bytes(bytes, val);
    assert(final(bytes)@ =~= old(bytes)@ + spec_var(val@, 3));
}

} // verus!
