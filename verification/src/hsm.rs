//! Talking to the hardware security module: the PIN verification and PIN
//! translation commands the switch sends, how it reads their answers, the
//! correlation headers, and the test HSM's answers.
use vstd::prelude::*;
use vstd::string::{StrSliceExecFns, StringExecFns};
use vstd::utf8::{decode_utf8, encode_utf8, is_char_boundary, valid_utf8};
use crate::numeric::zero_padded;
use crate::text::{ascii_chars, decode_lossy, string_bytes, to_text};
use crate::thales::{ThalesMessage, ThalesView};

verus! {

/// A client of a standalone HSM, by address.
#[derive(Debug, Clone)]
pub struct ThalesClient {
    pub host: String,
}

/// An HSM failure, with its message.
#[derive(Debug, Clone)]
pub struct HsmError(pub String);

/// The twelve PAN digits an HSM command carries: the PAN without its last
/// digit, the twelve before it; a PAN shorter than twelve bytes is sent whole.
pub open spec fn pan_field(pan: Seq<u8>) -> Seq<u8> {
    if pan.len() >= 12 {
        pan.subrange(pan.len() - 13, pan.len() - 1)
    } else {
        pan
    }
}

/// The PAN can be cut for an HSM command: it is not exactly twelve bytes
/// long, and a longer one can be cut at both ends of its field.
pub open spec fn pan_field_defined(pan: Seq<char>) -> bool {
    let b = encode_utf8(pan);
    b.len() != 12 && (b.len() >= 13 ==> is_char_boundary(b, b.len() - 13) && is_char_boundary(b, b.len() - 1))
}

/// Whether the PAN can be cut for an HSM command.
pub fn pan_field_ok(pan: &str) -> (r: bool)
    ensures
        r == pan_field_defined(pan@),
{
    let n = pan.as_bytes().len();
    if n == 12 {
        return false;
    }
    n < 13 || (pan.is_char_boundary(n - 13) && pan.is_char_boundary(n - 1))
}

/// The PAN field of an HSM command.
pub fn formatted_pan(pan: &str) -> (r: String)
    requires
        pan_field_defined(pan@),
    ensures
        r@ == decode_utf8(pan_field(encode_utf8(pan@))),
{
    let n = pan.as_bytes().len();
    proof {
        vstd::utf8::encode_utf8_decode_utf8(pan@);
        vstd::utf8::encode_utf8_valid_utf8(pan@);
    }
    if n < 12 {
        return pan.to_owned();
    }
    let (_head, tail) = pan.split_at(n - 13);
    proof {
        let b = encode_utf8(pan@);
        assert(encode_utf8(tail@) =~= b.subrange(n - 13, n as int));
        vstd::utf8::encode_utf8_valid_utf8(tail@);
        vstd::utf8::is_char_boundary_iff_not_is_continuation_byte(b, n - 1);
        vstd::utf8::is_char_boundary_iff_not_is_continuation_byte(encode_utf8(tail@), 12);
        assert(encode_utf8(tail@)[12] == b[n - 1]);
    }
    let (field, _last) = tail.split_at(12);
    proof {
        let b = encode_utf8(pan@);
        assert(encode_utf8(field@) =~= b.subrange(n - 13, n - 1));
        vstd::utf8::encode_utf8_decode_utf8(field@);
    }
    field.to_owned()
}

/// The payload of a PIN verification: the working key, the PIN block,
/// format `01`, the PAN field, the verification key and the PVV.
pub open spec fn verify_pin_text(pin_block: Seq<char>, pan: Seq<char>, pvv: Seq<char>) -> Seq<char> {
    "AWK1234567890123"@ + pin_block + "01"@ + decode_utf8(pan_field(encode_utf8(pan))) + "PVK1234567890123"@ + pvv
}

/// The payload of a PIN verification command.
pub fn verify_pin_payload(pin_block: &str, pan: &str, pvv: &str) -> (r: String)
    requires
        pan_field_defined(pan@),
    ensures
        r@ == verify_pin_text(pin_block@, pan@, pvv@),
{
    let field = formatted_pan(pan);
    let mut payload = String::from_str("AWK1234567890123");
    payload.append(pin_block);
    payload.append("01");
    payload.append(field.as_str());
    payload.append("PVK1234567890123");
    payload.append(pvv);
    payload
}

/// The payload of a PIN translation: the source and destination working
/// keys, the maximum PIN length `12`, the PIN block, format `01` and the
/// PAN field.
pub open spec fn translate_pin_text(pin_block: Seq<char>, pan: Seq<char>) -> Seq<char> {
    "AWK1234567890123"@ + "ZWK1234567890123"@ + "12"@ + pin_block + "01"@ + decode_utf8(pan_field(encode_utf8(pan)))
}

/// The payload of a PIN translation command.
pub fn translate_pin_payload(pin_block: &str, pan: &str) -> (r: String)
    requires
        pan_field_defined(pan@),
    ensures
        r@ == translate_pin_text(pin_block@, pan@),
{
    let field = formatted_pan(pan);
    let mut payload = String::from_str("AWK1234567890123");
    payload.append("ZWK1234567890123");
    payload.append("12");
    payload.append(pin_block);
    payload.append("01");
    payload.append(field.as_str());
    payload
}

/// `s`'s UTF-8 bytes begin with `p`.
pub open spec fn text_starts(s: Seq<char>, p: Seq<u8>) -> bool {
    encode_utf8(s).len() >= p.len() && encode_utf8(s).subrange(0, p.len() as int) == p
}

/// `s` is the text whose bytes are `p`.
pub open spec fn text_is(s: Seq<char>, p: Seq<u8>) -> bool {
    encode_utf8(s) == p
}

/// What an answer to a PIN verification says: `DB` with `00` verifies, `DB`
/// with `05` refuses, anything else is an error.
pub open spec fn verify_pin_answer(resp: ThalesView) -> Option<bool> {
    if text_is(resp.command, seq![68u8, 66u8]) && text_starts(resp.payload, seq![48u8, 48u8]) {
        Some(true)
    } else if text_is(resp.command, seq![68u8, 66u8]) && text_starts(resp.payload, seq![48u8, 53u8]) {
        Some(false)
    } else {
        None
    }
}

fn text_equals(s: &str, p: &[u8]) -> (r: bool)
    ensures
        r == text_is(s@, p@),
{
    crate::text::bytes_equal(s.as_bytes(), p)
}

fn text_begins(s: &str, p: &[u8]) -> (r: bool)
    ensures
        r == text_starts(s@, p@),
{
    crate::text::bytes_start_with(s.as_bytes(), p)
}

/// Reads the answer to a PIN verification.
pub fn verify_pin_outcome(resp: &ThalesMessage) -> (r: Result<bool, HsmError>)
    ensures
        match verify_pin_answer(resp@) {
            Some(b) => r == Ok::<bool, HsmError>(b),
            None => r matches Err(e) && e.0@ == "Invalid Verify PIN DB HSM Response"@,
        },
{
    let is_db = text_equals(resp.command.as_str(), &[68u8, 66u8]);
    if is_db && text_begins(resp.payload.as_str(), &[48u8, 48u8]) {
        Ok(true)
    } else if is_db && text_begins(resp.payload.as_str(), &[48u8, 53u8]) {
        Ok(false)
    } else {
        Err(HsmError(String::from_str("Invalid Verify PIN DB HSM Response")))
    }
}

/// Text whose first `k` bytes are ASCII can be cut after them.
proof fn lemma_ascii_prefix_boundary(t: Seq<u8>, k: int)
    requires
        valid_utf8(t),
        0 <= k <= t.len(),
        forall|i: int| 0 <= i < k ==> #[trigger] t[i] < 128,
    ensures
        is_char_boundary(t, k),
    decreases k,
{
    if k > 0 {
        reveal_with_fuel(valid_utf8, 2);
        reveal_with_fuel(is_char_boundary, 2);
        let b0 = t[0];
        assert(b0 < 128);
        assert(vstd::utf8::is_leading_byte_width_1(b0)) by (bit_vector)
            requires
                b0 < 128,
        ;
        assert(vstd::utf8::length_of_first_scalar(t) == 1);
        let rest = vstd::utf8::pop_first_scalar(t);
        assert(rest =~= t.subrange(1, t.len() as int));
        lemma_ascii_prefix_boundary(rest, k - 1);
    }
}

/// What an answer to a PIN translation gives: the translated PIN block after
/// `CB00`, or `None`.
pub open spec fn translate_pin_answer(resp: ThalesView) -> Option<Seq<char>> {
    if text_is(resp.command, seq![67u8, 66u8]) && text_starts(resp.payload, seq![48u8, 48u8]) {
        Some(resp.payload.subrange(2, resp.payload.len() as int))
    } else {
        None
    }
}

/// Reads the answer to a PIN translation.
pub fn translate_pin_outcome(resp: &ThalesMessage) -> (r: Result<String, HsmError>)
    ensures
        match translate_pin_answer(resp@) {
            Some(s) => r matches Ok(t) && t@ == s,
            None => r matches Err(e) && e.0@ == "Failed to translate PIN"@,
        },
{
    let st: &str = resp.payload.as_str();
    if text_equals(resp.command.as_str(), &[67u8, 66u8]) && text_begins(st, &[48u8, 48u8]) {
        proof {
            let b = encode_utf8(st@);
            vstd::utf8::encode_utf8_valid_utf8(st@);
            assert(b[0] == 48u8 && b[1] == 48u8) by {
                assert(b.subrange(0, 2)[0] == b[0]);
                assert(b.subrange(0, 2)[1] == b[1]);
            }
            lemma_ascii_prefix_boundary(b, 2);
        }
        let (head, rest) = st.split_at(2);
        proof {
            let b = encode_utf8(st@);
            vstd::utf8::encode_utf8_decode_utf8(st@);
            vstd::utf8::encode_utf8_decode_utf8(head@);
            vstd::utf8::encode_utf8_decode_utf8(rest@);
            vstd::utf8::decode_utf8_split(b, 2);
            assert(encode_utf8(head@) =~= b.subrange(0, 2));
            assert(encode_utf8(rest@) =~= b.subrange(2, b.len() as int));
            assert(st@ =~= head@ + rest@);
            crate::text::lemma_ascii_utf8(b.subrange(0, 2));
            assert(head@.len() == 2);
            assert(rest@ =~= st@.subrange(2, st@.len() as int));
        }
        Ok(rest.to_owned())
    } else {
        Err(HsmError(String::from_str("Failed to translate PIN")))
    }
}

/// The correlation header of the `counter`-th command: four digits, the
/// counter wrapping at ten thousand.
pub open spec fn header_of(counter: u32) -> Seq<char> {
    ascii_chars(zero_padded((counter % 10000) as nat, 4))
}

/// The correlation header for counter value `counter`.
pub fn next_header_text(counter: u32) -> (r: String)
    ensures
        r@ == header_of(counter),
{
    let digits = crate::numeric::zero_padded_text((counter % 10000) as u64, 4);
    proof {
        crate::numeric::lemma_zero_padded_parses((counter % 10000) as nat, 4);
        assert(crate::text::all_ascii(digits@)) by {
            assert forall|i: int| 0 <= i < digits@.len() implies #[trigger] digits@[i] < 128 by {
                assert(crate::numeric::is_digit(digits@[i]));
            }
        }
    }
    crate::text::ascii_text(digits.as_slice())
}

/// The text of a standalone PIN translation command: `CA`, the source and
/// destination keys, `12`, the PAN field and the PIN block.
pub open spec fn pin_translation_text(src_key: Seq<char>, dst_key: Seq<char>, pan: Seq<char>, pin_block: Seq<char>) -> Seq<
    char,
> {
    "CA"@ + src_key + dst_key + "12"@ + decode_utf8(pan_field(encode_utf8(pan))) + pin_block
}

/// The standalone PIN translation command.
pub fn pin_translation_command(src_key: &str, dst_key: &str, pan: &str, pin_block: &str) -> (r: String)
    requires
        pan_field_defined(pan@),
    ensures
        r@ == pin_translation_text(src_key@, dst_key@, pan@, pin_block@),
{
    let field = formatted_pan(pan);
    let mut command = String::from_str("CA");
    command.append(src_key);
    command.append(dst_key);
    command.append("12");
    command.append(field.as_str());
    command.append(pin_block);
    command
}

/// The translated PIN block a standalone translation answer carries: the
/// text after `CB`, when the answer (read as UTF-8 with replacement) begins
/// with it.
pub open spec fn cb_answer(resp: Seq<u8>) -> Option<Seq<char>> {
    let s = decode_lossy(resp);
    if text_starts(s, seq![67u8, 66u8]) {
        Some(s.subrange(2, s.len() as int))
    } else {
        None
    }
}

/// Reads a standalone translation answer.
pub fn cb_translation(resp: &[u8]) -> (r: Option<String>)
    ensures
        crate::engine::opt_text(r) == cb_answer(resp@),
{
    let text = to_text(resp);
    let st: &str = text.as_str();
    if !text_begins(st, &[67u8, 66u8]) {
        return None;
    }
    proof {
        let b = encode_utf8(st@);
        vstd::utf8::encode_utf8_valid_utf8(st@);
        assert(b[0] == 67u8 && b[1] == 66u8) by {
            assert(b.subrange(0, 2)[0] == b[0]);
            assert(b.subrange(0, 2)[1] == b[1]);
        }
        lemma_ascii_prefix_boundary(b, 2);
    }
    let (head, rest) = st.split_at(2);
    proof {
        let b = encode_utf8(st@);
        vstd::utf8::encode_utf8_decode_utf8(st@);
        vstd::utf8::encode_utf8_decode_utf8(head@);
        vstd::utf8::encode_utf8_decode_utf8(rest@);
        vstd::utf8::decode_utf8_split(b, 2);
        assert(encode_utf8(head@) =~= b.subrange(0, 2));
        assert(encode_utf8(rest@) =~= b.subrange(2, b.len() as int));
        crate::text::lemma_ascii_utf8(b.subrange(0, 2));
        assert(st@ =~= head@ + rest@);
        assert(rest@ =~= st@.subrange(2, st@.len() as int));
    }
    Some(rest.to_owned())
}

/// The test HSM can answer `m`: a `CA` payload of 50 bytes or more can be
/// cut at bytes 34 and 50, a `DA` payload of 66 bytes or more four bytes
/// from its end, and any other command has a first character.
pub open spec fn hsm_command_answerable(m: ThalesView) -> bool {
    let b = encode_utf8(m.payload);
    if text_is(m.command, seq![67u8, 65u8]) {
        b.len() >= 50 ==> is_char_boundary(b, 34) && is_char_boundary(b, 50)
    } else if text_is(m.command, seq![68u8, 65u8]) {
        b.len() >= 66 ==> is_char_boundary(b, b.len() - 4)
    } else {
        m.command.len() > 0
    }
}

/// Whether the test HSM can answer `msg`.
pub fn hsm_command_ok(msg: &ThalesMessage) -> (r: bool)
    ensures
        r == hsm_command_answerable(msg@),
{
    let n = msg.payload.as_str().as_bytes().len();
    if text_equals(msg.command.as_str(), &[67u8, 65u8]) {
        n < 50 || (msg.payload.as_str().is_char_boundary(34) && msg.payload.as_str().is_char_boundary(50))
    } else if text_equals(msg.command.as_str(), &[68u8, 65u8]) {
        n < 66 || msg.payload.as_str().is_char_boundary(n - 4)
    } else {
        msg.command.as_str().unicode_len() > 0
    }
}

/// The test HSM's answer: `CA` (translate) reverses the PIN block at bytes
/// 34 to 50 and answers `CB` `00` with it, or `CB` `01` when the payload is
/// too short; `DA` (verify) answers `DB` `05` when the PVV (the last four
/// bytes) is `9999` and `DB` `00` otherwise, or `DB` `01` when the payload is
/// too short; any other command `xA` is answered `xB` `15`.
pub open spec fn hsm_reply(m: ThalesView) -> ThalesView {
    let b = encode_utf8(m.payload);
    if text_is(m.command, seq![67u8, 65u8]) {
        if b.len() >= 50 {
            ThalesView { command: "CB"@, payload: "00"@ + decode_utf8(b.subrange(34, 50)).reverse(), ..m }
        } else {
            ThalesView { command: "CB"@, payload: "01"@, ..m }
        }
    } else if text_is(m.command, seq![68u8, 65u8]) {
        if b.len() >= 66 {
            ThalesView {
                command: "DB"@,
                payload: if b.subrange(b.len() - 4, b.len() as int) == seq![57u8, 57u8, 57u8, 57u8] {
                    "05"@
                } else {
                    "00"@
                },
                ..m
            }
        } else {
            ThalesView { command: "DB"@, payload: "01"@, ..m }
        }
    } else {
        ThalesView { command: seq![m.command[0], 'B'], payload: "15"@, ..m }
    }
}

/// The characters of `s` in reverse order.
fn reversed(s: &str) -> (r: String)
    ensures
        r@ == s@.reverse(),
{
    let n = s.unicode_len();
    let mut out = String::new();
    let mut i = n;
    while i > 0
        invariant
            i <= n,
            n == s@.len(),
            out@ == s@.subrange(i as int, n as int).reverse(),
        decreases i,
    {
        i = i - 1;
        let piece = s.substring_char(i, i + 1);
        let ghost before = out@;
        out.append(piece);
        assert(out@ =~= s@.subrange(i as int, n as int).reverse());
    }
    assert(s@.subrange(0, n as int) =~= s@);
    out
}

/// The test HSM's answer to a command.
pub fn process_hsm_command(msg: ThalesMessage) -> (r: ThalesMessage)
    requires
        hsm_command_answerable(msg@),
    ensures
        r@ == hsm_reply(msg@),
{
    let mut msg = msg;
    let ghost m = msg@;
    let b = string_bytes(&msg.payload);
    let n = b.len();
    proof {
        vstd::utf8::encode_utf8_valid_utf8(m.payload);
        vstd::utf8::encode_utf8_decode_utf8(m.payload);
    }
    if text_equals(msg.command.as_str(), &[67u8, 65u8]) {
        if n >= 50 {
            let st: &str = msg.payload.as_str();
            let (_keys, tail) = st.split_at(34);
            proof {
                let bb = encode_utf8(m.payload);
                assert(encode_utf8(tail@) =~= bb.subrange(34, bb.len() as int));
                vstd::utf8::encode_utf8_valid_utf8(tail@);
                if bb.len() > 50 {
                    vstd::utf8::is_char_boundary_iff_not_is_continuation_byte(bb, 50);
                    vstd::utf8::is_char_boundary_iff_not_is_continuation_byte(encode_utf8(tail@), 16);
                    assert(encode_utf8(tail@)[16] == bb[50]);
                } else {
                    vstd::utf8::is_char_boundary_start_end_of_seq(encode_utf8(tail@));
                }
            }
            let (pin_block, _rest) = tail.split_at(16);
            proof {
                let bb = encode_utf8(m.payload);
                assert(encode_utf8(pin_block@) =~= bb.subrange(34, 50));
                vstd::utf8::encode_utf8_decode_utf8(pin_block@);
            }
            let rev = reversed(pin_block);
            let mut payload = String::from_str("00");
            payload.append(rev.as_str());
            msg.command = String::from_str("CB");
            msg.payload = payload;
        } else {
            msg.command = String::from_str("CB");
            msg.payload = String::from_str("01");
        }
    } else if text_equals(msg.command.as_str(), &[68u8, 65u8]) {
        if n >= 66 {
            let st: &str = msg.payload.as_str();
            let (_front, pvv) = st.split_at(n - 4);
            proof {
                let bb = encode_utf8(m.payload);
                assert(encode_utf8(pvv@) =~= bb.subrange(n - 4, n as int));
            }
            let refused = crate::text::bytes_equal(pvv.as_bytes(), &[57u8, 57u8, 57u8, 57u8]);
            msg.command = String::from_str("DB");
            if refused {
                msg.payload = String::from_str("05");
            } else {
                msg.payload = String::from_str("00");
            }
        } else {
            msg.command = String::from_str("DB");
            msg.payload = String::from_str("01");
        }
    } else {
        let first = msg.command.as_str().substring_char(0, 1);
        let mut command = String::from_str(first);
        command.append("B");
        proof {
            reveal_strlit("B");
            assert(command@ =~= seq![m.command[0], 'B']);
        }
        msg.command = command;
        msg.payload = String::from_str("15");
    }
    msg
}

/// The UTF-8 encoding of two texts one after the other is their encodings
/// one after the other.
proof fn lemma_encode_concat(a: Seq<char>, b: Seq<char>)
    ensures
        encode_utf8(a + b) == encode_utf8(a) + encode_utf8(b),
    decreases a.len(),
{
    if a.len() == 0 {
        assert(a + b =~= b);
        assert(encode_utf8(a) + encode_utf8(b) =~= encode_utf8(b));
    } else {
        assert((a + b).drop_first() =~= a.drop_first() + b);
        assert((a + b)[0] == a[0]);
        lemma_encode_concat(a.drop_first(), b);
        assert(encode_utf8(a + b) =~= encode_utf8(a) + encode_utf8(b));
    }
}

/// ASCII text encodes one byte per character, each below 128.
proof fn lemma_ascii_encoding(s: Seq<char>)
    requires
        vstd::utf8::is_ascii_chars(s),
    ensures
        encode_utf8(s).len() == s.len(),
        forall|i: int| 0 <= i < s.len() ==> #[trigger] encode_utf8(s)[i] < 128,
        decode_utf8(encode_utf8(s)) == s,
{
    vstd::utf8::is_ascii_chars_encode_utf8(s);
    vstd::utf8::encode_utf8_decode_utf8(s);
    assert forall|i: int| 0 <= i < s.len() implies #[trigger] encode_utf8(s)[i] < 128 by {
        assert('\0' <= s[i] <= '\u{7f}');
        assert(s[i] as u8 == encode_utf8(s)[i]);
    }
}

/// A PIN translation of a sixteen-character ASCII PIN block, answered by the
/// test HSM, reads back as the PIN block reversed: the command can be
/// answered, and the answer gives the reversed block.
pub proof fn law_pin_translation_through_test_hsm(header: Seq<char>, pin_block: Seq<char>, pan: Seq<char>)
    requires
        vstd::utf8::is_ascii_chars(pin_block),
        pin_block.len() == 16,
    ensures
        hsm_command_answerable(ThalesView { header, command: "CA"@, payload: translate_pin_text(pin_block, pan) }),
        translate_pin_answer(hsm_reply(ThalesView { header, command: "CA"@, payload: translate_pin_text(pin_block, pan) }))
            == Some(pin_block.reverse()),
{
    reveal_strlit("AWK1234567890123");
    reveal_strlit("ZWK1234567890123");
    reveal_strlit("12");
    reveal_strlit("01");
    reveal_strlit("00");
    reveal_strlit("CA");
    reveal_strlit("CB");
    let keys = "AWK1234567890123"@ + "ZWK1234567890123"@ + "12"@;
    let tail = "01"@ + decode_utf8(pan_field(encode_utf8(pan)));
    let text = translate_pin_text(pin_block, pan);
    assert(text =~= keys + pin_block + tail);
    assert(vstd::utf8::is_ascii_chars(keys));
    assert(vstd::utf8::is_ascii_chars("01"@));
    lemma_ascii_encoding(keys);
    lemma_ascii_encoding(pin_block);
    lemma_ascii_encoding("01"@);
    lemma_encode_concat(keys + pin_block, tail);
    lemma_encode_concat(keys, pin_block);
    lemma_encode_concat("01"@, decode_utf8(pan_field(encode_utf8(pan))));
    let b = encode_utf8(text);
    assert(keys.len() == 34);
    assert(b.subrange(34, 50) =~= encode_utf8(pin_block));
    assert(b.len() >= 52);
    assert(forall|i: int| 0 <= i < 34 ==> b[i] == #[trigger] encode_utf8(keys)[i]);
    assert(forall|i: int| 34 <= i < 50 ==> b[i] == #[trigger] encode_utf8(pin_block)[i - 34]);
    vstd::utf8::encode_utf8_valid_utf8(text);
    assert forall|i: int| 0 <= i < 50 implies #[trigger] b[i] < 128 by {
        if i < 34 {
            assert(b[i] == encode_utf8(keys)[i]);
        } else {
            assert(b[i] == encode_utf8(pin_block)[i - 34]);
        }
    }
    lemma_ascii_prefix_boundary(b, 34);
    lemma_ascii_prefix_boundary(b, 50);
    let m = ThalesView { header, command: "CA"@, payload: text };
    assert(encode_utf8("CA"@) =~= seq![67u8, 65u8]) by {
        assert(vstd::utf8::is_ascii_chars("CA"@));
        vstd::utf8::is_ascii_chars_encode_utf8("CA"@);
    }
    let reply = hsm_reply(m);
    assert(reply.command == "CB"@);
    assert(reply.payload == "00"@ + pin_block.reverse());
    assert(encode_utf8("CB"@) =~= seq![67u8, 66u8]) by {
        assert(vstd::utf8::is_ascii_chars("CB"@));
        vstd::utf8::is_ascii_chars_encode_utf8("CB"@);
    }
    assert(encode_utf8("00"@) =~= seq![48u8, 48u8]) by {
        assert(vstd::utf8::is_ascii_chars("00"@));
        vstd::utf8::is_ascii_chars_encode_utf8("00"@);
    }
    lemma_encode_concat("00"@, pin_block.reverse());
    assert(encode_utf8(reply.payload).subrange(0, 2) =~= seq![48u8, 48u8]);
    assert(reply.payload.subrange(2, reply.payload.len() as int) =~= pin_block.reverse());
}

} // verus!
