//! General-ledger postings: the institution a card books to, the masked PAN
//! and routing BIN recorded with a posting, and the signed amounts a
//! capture or a reversal books.
use vstd::prelude::*;
use vstd::string::StringExecFns;
use vstd::utf8::{decode_utf8, encode_utf8, is_char_boundary};
use crate::hsm::text_starts;

verus! {

/// The vostro and nostro accounts of an institution.
#[derive(Debug, Clone)]
pub struct AccountMapping {
    pub vostro_account_id: String,
    pub nostro_account_id: String,
}

/// The institution a card books to: `CITI` for a PAN beginning with `4`,
/// `DANSKE_BANK` for `5`, `DEFAULT_INST` otherwise.
pub open spec fn institution_of(pan: Seq<char>) -> Seq<char> {
    if text_starts(pan, seq![52u8]) {
        "CITI"@
    } else if text_starts(pan, seq![53u8]) {
        "DANSKE_BANK"@
    } else {
        "DEFAULT_INST"@
    }
}

/// The institution a card books to.
pub fn ledger_institution(pan: &str) -> (r: &'static str)
    ensures
        r@ == institution_of(pan@),
{
    let four = [52u8];
    let five = [53u8];
    assert(four@ =~= seq![52u8]);
    assert(five@ =~= seq![53u8]);
    if crate::text::bytes_start_with(pan.as_bytes(), &four) {
        "CITI"
    } else if crate::text::bytes_start_with(pan.as_bytes(), &five) {
        "DANSKE_BANK"
    } else {
        "DEFAULT_INST"
    }
}

/// The accounts of an institution, `UNKNOWN` when the chart has none.
pub fn accounts_for(mapping: Option<&AccountMapping>) -> (r: (String, String))
    ensures
        match mapping {
            Some(m) => r.0@ == m.vostro_account_id@ && r.1@ == m.nostro_account_id@,
            None => r.0@ == "UNKNOWN"@ && r.1@ == "UNKNOWN"@,
        },
{
    match mapping {
        Some(m) => (m.vostro_account_id.clone(), m.nostro_account_id.clone()),
        None => (String::from_str("UNKNOWN"), String::from_str("UNKNOWN")),
    }
}

/// Where the masked PAN keeps its ends: its first six bytes (or fewer) and
/// its last four.
pub open spec fn mask_cuts(n: int) -> (int, int) {
    (if n < 6 { n } else { 6 }, if n < 4 { 0 } else { n - 4 })
}

/// The PAN can be cut where its mask keeps it.
pub open spec fn maskable(pan: Seq<char>) -> bool {
    let b = encode_utf8(pan);
    is_char_boundary(b, mask_cuts(b.len() as int).0) && is_char_boundary(b, mask_cuts(b.len() as int).1)
}

/// The masked PAN: its first six bytes, `****`, its last four.
pub open spec fn masked_text(pan: Seq<char>) -> Seq<char> {
    let b = encode_utf8(pan);
    let (a, z) = mask_cuts(b.len() as int);
    decode_utf8(b.subrange(0, a)) + "****"@ + decode_utf8(b.subrange(z, b.len() as int))
}

/// Whether the PAN can be cut where its mask keeps it.
pub fn mask_ok(pan: &str) -> (r: bool)
    ensures
        r == maskable(pan@),
{
    let n = pan.as_bytes().len();
    let a = if n < 6 { n } else { 6 };
    let z = if n < 4 { 0 } else { n - 4 };
    pan.is_char_boundary(a) && pan.is_char_boundary(z)
}

/// Whether the PAN can be cut after its sixth byte.
pub fn bin_cut_ok(pan: &str) -> (r: bool)
    ensures
        r == (encode_utf8(pan@).len() >= 6 ==> is_char_boundary(encode_utf8(pan@), 6)),
{
    pan.as_bytes().len() < 6 || pan.is_char_boundary(6)
}

/// The masked PAN recorded with a posting.
pub fn masked_pan(pan: &str) -> (r: String)
    requires
        maskable(pan@),
    ensures
        r@ == masked_text(pan@),
{
    let n = pan.as_bytes().len();
    let a = if n < 6 { n } else { 6 };
    let z = if n < 4 { 0 } else { n - 4 };
    proof {
        vstd::utf8::encode_utf8_valid_utf8(pan@);
    }
    let (head, _rest) = pan.split_at(a);
    let (_front, tail) = pan.split_at(z);
    proof {
        let b = encode_utf8(pan@);
        assert(encode_utf8(head@) =~= b.subrange(0, a as int));
        assert(encode_utf8(tail@) =~= b.subrange(z as int, b.len() as int));
        vstd::utf8::encode_utf8_decode_utf8(head@);
        vstd::utf8::encode_utf8_decode_utf8(tail@);
    }
    let mut out = String::from_str(head);
    out.append("****");
    out.append(tail);
    out
}

/// The BIN recorded with a posting: the PAN's first six bytes, or `000000`
/// for a shorter PAN.
pub open spec fn routing_bin_text(pan: Seq<char>) -> Seq<char> {
    let b = encode_utf8(pan);
    if b.len() >= 6 {
        decode_utf8(b.subrange(0, 6))
    } else {
        "000000"@
    }
}

/// The BIN recorded with a posting.
pub fn routing_bin(pan: &str) -> (r: String)
    requires
        encode_utf8(pan@).len() >= 6 ==> is_char_boundary(encode_utf8(pan@), 6),
    ensures
        r@ == routing_bin_text(pan@),
{
    if pan.as_bytes().len() < 6 {
        return String::from_str("000000");
    }
    let (bin, _rest) = pan.split_at(6);
    proof {
        vstd::utf8::encode_utf8_decode_utf8(bin@);
    }
    bin.to_owned()
}

/// A posting's signed amounts and status.
pub struct LedgerPosting {
    pub principal: i64,
    pub fee: i64,
    pub status: &'static str,
}

/// The posting of a capture of `amount` with interchange fee `fee`: the
/// amount and fee as they are, in status `shadow`; for a reversal both are
/// negated and the status is `reversed_offset_hold`.
pub open spec fn posting_of(amount: u64, fee: i64, is_reversal: bool) -> (int, int, Seq<char>) {
    if is_reversal {
        (-((amount as i64) as int), -(fee as int), "reversed_offset_hold"@)
    } else {
        ((amount as i64) as int, fee as int, "shadow"@)
    }
}

/// A reversal's amounts can be negated.
pub open spec fn posting_negatable(amount: u64, fee: i64, is_reversal: bool) -> bool {
    is_reversal ==> (amount as i64) != i64::MIN && fee != i64::MIN
}

/// The posting of a capture or a reversal.
pub fn ledger_posting(amount: u64, fee: i64, is_reversal: bool) -> (p: LedgerPosting)
    requires
        posting_negatable(amount, fee, is_reversal),
    ensures
        (p.principal as int, p.fee as int, p.status@) == posting_of(amount, fee, is_reversal),
{
    let principal = amount as i64;
    if is_reversal {
        LedgerPosting { principal: -principal, fee: -fee, status: "reversed_offset_hold" }
    } else {
        LedgerPosting { principal, fee, status: "shadow" }
    }
}

/// A reversal offsets its capture: the amounts it books are the capture's,
/// negated, so the two sum to zero.
pub proof fn law_reversal_offsets(amount: u64, fee: i64)
    requires
        posting_negatable(amount, fee, true),
    ensures
        posting_of(amount, fee, true).0 + posting_of(amount, fee, false).0 == 0,
        posting_of(amount, fee, true).1 + posting_of(amount, fee, false).1 == 0,
{
}

} // verus!
