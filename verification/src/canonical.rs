//! The canonical payment event every dialect decodes into and encodes from,
//! and the journal record (`Transaction`) it is stored as.
use vstd::prelude::*;
use vstd::utf8::encode_utf8;
use crate::text::{bytes_to_vec, copy_opt_string, copy_string, to_text, opt_chars, string_bytes, decode_lossy, lemma_decode_encoded};

verus! {

/// The class of a message, given by its MTI.
#[derive(Debug, Clone, Copy, PartialEq, Eq, Structural)]
pub enum MessageClass {
    Authorization,
    Financial,
    ReversalAdvice,
    ReversalResponse,
    NetworkManagement,
    NetworkManagementResponse,
    FileUpdate,
}

/// What kind of transaction a message carries.
#[derive(Debug, Clone, Copy, PartialEq, Eq, Structural)]
pub enum TransactionType {
    CashWithdrawal,
    BalanceInquiry,
    Purchase,
    Refund,
    Settlement,
}

/// Field 3.
#[derive(Debug, Clone, PartialEq, Eq, Default)]
pub struct ProcessingCode(pub String);

/// Field 11, the systems trace audit number.
#[derive(Debug, Clone, PartialEq, Eq, Default)]
pub struct Stan(pub String);

/// Field 12.
#[derive(Debug, Clone, PartialEq, Eq, Default)]
pub struct LocalTime(pub String);

/// Field 13.
#[derive(Debug, Clone, PartialEq, Eq, Default)]
pub struct LocalDate(pub String);

/// Field 37, the retrieval reference number.
#[derive(Debug, Clone, PartialEq, Eq, Default)]
pub struct Rrn(pub String);

/// Field 39.
#[derive(Debug, Clone, PartialEq, Eq, Default)]
pub struct ResponseCode(pub String);

/// A payment message in the switch's own form.
#[derive(Debug, Clone, PartialEq, Eq)]
pub struct UniversalPaymentEvent {
    pub message_class: MessageClass,
    pub transaction_type: TransactionType,
    pub mti: Vec<u8>,
    /// Funding PAN.
    pub fpan: Vec<u8>,
    /// Device PAN.
    pub dpan: Option<String>,
    pub is_tokenized: bool,
    pub tavv_cryptogram: Option<String>,
    pub processing_code: ProcessingCode,
    pub amount: u64,
    pub stan: Stan,
    pub local_time: LocalTime,
    pub local_date: LocalDate,
    pub rrn: Rrn,
    pub response_code: ResponseCode,
    pub acquirer_id: Vec<u8>,
    pub pin_block: Vec<u8>,
    /// Network risk score (0-100), read from a `RSK:NNN:` prefix of field 48;
    /// 0 when no score is present.
    pub risk_score: u8,
    pub requires_instant_clearing: bool,
    pub domestic_settlement_data: Option<String>,
    pub source_account: Option<String>,
    pub destination_account: Option<String>,
    pub original_data_elements: Option<String>,
    pub mac_data: Option<String>,
    pub is_reversal: bool,
}

/// The content of a `UniversalPaymentEvent`.
#[verifier::ext_equal]
pub struct EventView {
    pub message_class: MessageClass,
    pub transaction_type: TransactionType,
    pub mti: Seq<u8>,
    pub fpan: Seq<u8>,
    pub dpan: Option<Seq<char>>,
    pub is_tokenized: bool,
    pub tavv_cryptogram: Option<Seq<char>>,
    pub processing_code: Seq<char>,
    pub amount: u64,
    pub stan: Seq<char>,
    pub local_time: Seq<char>,
    pub local_date: Seq<char>,
    pub rrn: Seq<char>,
    pub response_code: Seq<char>,
    pub acquirer_id: Seq<u8>,
    pub pin_block: Seq<u8>,
    pub risk_score: u8,
    pub requires_instant_clearing: bool,
    pub domestic_settlement_data: Option<Seq<char>>,
    pub source_account: Option<Seq<char>>,
    pub destination_account: Option<Seq<char>>,
    pub original_data_elements: Option<Seq<char>>,
    pub mac_data: Option<Seq<char>>,
    pub is_reversal: bool,
}

impl View for UniversalPaymentEvent {
    type V = EventView;

    open spec fn view(&self) -> EventView {
        EventView {
            message_class: self.message_class,
            transaction_type: self.transaction_type,
            mti: self.mti@,
            fpan: self.fpan@,
            dpan: opt_chars(self.dpan),
            is_tokenized: self.is_tokenized,
            tavv_cryptogram: opt_chars(self.tavv_cryptogram),
            processing_code: self.processing_code.0@,
            amount: self.amount,
            stan: self.stan.0@,
            local_time: self.local_time.0@,
            local_date: self.local_date.0@,
            rrn: self.rrn.0@,
            response_code: self.response_code.0@,
            acquirer_id: self.acquirer_id@,
            pin_block: self.pin_block@,
            risk_score: self.risk_score,
            requires_instant_clearing: self.requires_instant_clearing,
            domestic_settlement_data: opt_chars(self.domestic_settlement_data),
            source_account: opt_chars(self.source_account),
            destination_account: opt_chars(self.destination_account),
            original_data_elements: opt_chars(self.original_data_elements),
            mac_data: opt_chars(self.mac_data),
            is_reversal: self.is_reversal,
        }
    }
}

impl UniversalPaymentEvent {
    /// A field-for-field copy.
    pub fn duplicate(&self) -> (r: Self)
        ensures
            r@ == self@,
    {
        UniversalPaymentEvent {
            message_class: self.message_class,
            transaction_type: self.transaction_type,
            mti: bytes_to_vec(self.mti.as_slice()),
            fpan: bytes_to_vec(self.fpan.as_slice()),
            dpan: copy_opt_string(&self.dpan),
            is_tokenized: self.is_tokenized,
            tavv_cryptogram: copy_opt_string(&self.tavv_cryptogram),
            processing_code: ProcessingCode(copy_string(&self.processing_code.0)),
            amount: self.amount,
            stan: Stan(copy_string(&self.stan.0)),
            local_time: LocalTime(copy_string(&self.local_time.0)),
            local_date: LocalDate(copy_string(&self.local_date.0)),
            rrn: Rrn(copy_string(&self.rrn.0)),
            response_code: ResponseCode(copy_string(&self.response_code.0)),
            acquirer_id: bytes_to_vec(self.acquirer_id.as_slice()),
            pin_block: bytes_to_vec(self.pin_block.as_slice()),
            risk_score: self.risk_score,
            requires_instant_clearing: self.requires_instant_clearing,
            domestic_settlement_data: copy_opt_string(&self.domestic_settlement_data),
            source_account: copy_opt_string(&self.source_account),
            destination_account: copy_opt_string(&self.destination_account),
            original_data_elements: copy_opt_string(&self.original_data_elements),
            mac_data: copy_opt_string(&self.mac_data),
            is_reversal: self.is_reversal,
        }
    }
}

/// The four ASCII bytes `a b c d`.
pub open spec fn mti4(a: char, b: char, c: char, d: char) -> Seq<u8> {
    seq![a as u8, b as u8, c as u8, d as u8]
}

/// The message class an MTI stands for; any MTI not listed is financial.
pub open spec fn class_of_mti(m: Seq<u8>) -> MessageClass {
    if m == mti4('0', '1', '0', '0') || m == mti4('0', '1', '1', '0') {
        MessageClass::Authorization
    } else if m == mti4('0', '2', '0', '0') || m == mti4('0', '2', '1', '0') {
        MessageClass::Financial
    } else if m == mti4('0', '4', '2', '0') || m == mti4('0', '4', '2', '1') {
        MessageClass::ReversalAdvice
    } else if m == mti4('0', '4', '3', '0') {
        MessageClass::ReversalResponse
    } else if m == mti4('0', '8', '0', '0') {
        MessageClass::NetworkManagement
    } else if m == mti4('0', '8', '1', '0') {
        MessageClass::NetworkManagementResponse
    } else {
        MessageClass::Financial
    }
}

/// `m` is the four ASCII bytes `a b c d`.
pub fn mti_is(m: &[u8], a: u8, b: u8, c: u8, d: u8) -> (r: bool)
    ensures
        r == (m@ == seq![a, b, c, d]),
{
    if m.len() != 4 {
        return false;
    }
    let r = m[0] == a && m[1] == b && m[2] == c && m[3] == d;
    if r {
        assert(m@ =~= seq![a, b, c, d]);
    }
    r
}

/// The message class of an MTI.
pub fn message_class_of(mti: &[u8]) -> (r: MessageClass)
    ensures
        r == class_of_mti(mti@),
{
    if mti_is(mti, 48, 49, 48, 48) || mti_is(mti, 48, 49, 49, 48) {
        MessageClass::Authorization
    } else if mti_is(mti, 48, 50, 48, 48) || mti_is(mti, 48, 50, 49, 48) {
        MessageClass::Financial
    } else if mti_is(mti, 48, 52, 50, 48) || mti_is(mti, 48, 52, 50, 49) {
        MessageClass::ReversalAdvice
    } else if mti_is(mti, 48, 52, 51, 48) {
        MessageClass::ReversalResponse
    } else if mti_is(mti, 48, 56, 48, 48) {
        MessageClass::NetworkManagement
    } else if mti_is(mti, 48, 56, 49, 48) {
        MessageClass::NetworkManagementResponse
    } else {
        MessageClass::Financial
    }
}

/// A journal record: the fields of an event that the write-ahead log keeps.
#[derive(Debug, Clone, PartialEq, Eq, Default)]
pub struct Transaction {
    pub mti: String,
    pub pan: String,
    pub processing_code: String,
    pub amount: i64,
    pub stan: String,
    pub rrn: String,
    pub response_code: String,
    pub acquirer_id: String,
    pub pin_block: String,
    pub local_time: String,
    pub local_date: String,
}

/// The content of a `Transaction`.
#[verifier::ext_equal]
pub struct TransactionView {
    pub mti: Seq<char>,
    pub pan: Seq<char>,
    pub processing_code: Seq<char>,
    pub amount: i64,
    pub stan: Seq<char>,
    pub rrn: Seq<char>,
    pub response_code: Seq<char>,
    pub acquirer_id: Seq<char>,
    pub pin_block: Seq<char>,
    pub local_time: Seq<char>,
    pub local_date: Seq<char>,
}

impl View for Transaction {
    type V = TransactionView;

    open spec fn view(&self) -> TransactionView {
        TransactionView {
            mti: self.mti@,
            pan: self.pan@,
            processing_code: self.processing_code@,
            amount: self.amount,
            stan: self.stan@,
            rrn: self.rrn@,
            response_code: self.response_code@,
            acquirer_id: self.acquirer_id@,
            pin_block: self.pin_block@,
            local_time: self.local_time@,
            local_date: self.local_date@,
        }
    }
}

impl Transaction {
    /// A field-for-field copy.
    pub fn duplicate(&self) -> (r: Self)
        ensures
            r@ == self@,
    {
        Transaction {
            mti: copy_string(&self.mti),
            pan: copy_string(&self.pan),
            processing_code: copy_string(&self.processing_code),
            amount: self.amount,
            stan: copy_string(&self.stan),
            rrn: copy_string(&self.rrn),
            response_code: copy_string(&self.response_code),
            acquirer_id: copy_string(&self.acquirer_id),
            pin_block: copy_string(&self.pin_block),
            local_time: copy_string(&self.local_time),
            local_date: copy_string(&self.local_date),
        }
    }
}

/// The journal record of an event.
pub open spec fn spec_to_pb(e: EventView) -> TransactionView {
    TransactionView {
        mti: decode_lossy(e.mti),
        pan: decode_lossy(e.fpan),
        processing_code: e.processing_code,
        amount: e.amount as i64,
        stan: e.stan,
        rrn: e.rrn,
        response_code: e.response_code,
        acquirer_id: decode_lossy(e.acquirer_id),
        pin_block: decode_lossy(e.pin_block),
        local_time: e.local_time,
        local_date: e.local_date,
    }
}

/// The event a journal record stands for; what the record does not keep is
/// left at its default.
pub open spec fn spec_from_pb(t: TransactionView) -> EventView {
    EventView {
        message_class: class_of_mti(encode_utf8(t.mti)),
        transaction_type: TransactionType::Purchase,
        mti: encode_utf8(t.mti),
        fpan: encode_utf8(t.pan),
        dpan: None,
        is_tokenized: false,
        tavv_cryptogram: None,
        processing_code: t.processing_code,
        amount: t.amount as u64,
        stan: t.stan,
        local_time: t.local_time,
        local_date: t.local_date,
        rrn: t.rrn,
        response_code: t.response_code,
        acquirer_id: encode_utf8(t.acquirer_id),
        pin_block: encode_utf8(t.pin_block),
        risk_score: 0,
        requires_instant_clearing: false,
        domestic_settlement_data: None,
        source_account: None,
        destination_account: None,
        original_data_elements: None,
        mac_data: None,
        is_reversal: false,
    }
}

/// The journal record of an event.
pub fn to_pb(canonical: &UniversalPaymentEvent) -> (r: Transaction)
    ensures
        r@ == spec_to_pb(canonical@),
{
    Transaction {
        mti: to_text(canonical.mti.as_slice()),
        pan: to_text(canonical.fpan.as_slice()),
        processing_code: copy_string(&canonical.processing_code.0),
        amount: canonical.amount as i64,
        stan: copy_string(&canonical.stan.0),
        rrn: copy_string(&canonical.rrn.0),
        response_code: copy_string(&canonical.response_code.0),
        acquirer_id: to_text(canonical.acquirer_id.as_slice()),
        pin_block: to_text(canonical.pin_block.as_slice()),
        local_time: copy_string(&canonical.local_time.0),
        local_date: copy_string(&canonical.local_date.0),
    }
}

/// The event a journal record stands for.
pub fn from_pb(pb: &Transaction) -> (r: UniversalPaymentEvent)
    ensures
        r@ == spec_from_pb(pb@),
{
    let mti = bytes_to_vec(string_bytes(&pb.mti));
    let message_class = message_class_of(mti.as_slice());
    UniversalPaymentEvent {
        message_class,
        transaction_type: TransactionType::Purchase,
        mti,
        fpan: bytes_to_vec(string_bytes(&pb.pan)),
        dpan: None,
        is_tokenized: false,
        tavv_cryptogram: None,
        processing_code: ProcessingCode(copy_string(&pb.processing_code)),
        amount: pb.amount as u64,
        stan: Stan(copy_string(&pb.stan)),
        local_time: LocalTime(copy_string(&pb.local_time)),
        local_date: LocalDate(copy_string(&pb.local_date)),
        rrn: Rrn(copy_string(&pb.rrn)),
        response_code: ResponseCode(copy_string(&pb.response_code)),
        acquirer_id: bytes_to_vec(string_bytes(&pb.acquirer_id)),
        pin_block: bytes_to_vec(string_bytes(&pb.pin_block)),
        risk_score: 0,
        requires_instant_clearing: false,
        domestic_settlement_data: None,
        source_account: None,
        destination_account: None,
        original_data_elements: None,
        mac_data: None,
        is_reversal: false,
    }
}

/// A journal record read back into an event and journalled again is the
/// record it was: `to_pb(from_pb(t)) == t` for every record.
pub proof fn law_pb_roundtrip(t: TransactionView)
    ensures
        spec_to_pb(spec_from_pb(t)).mti == t.mti,
        spec_to_pb(spec_from_pb(t)).pan == t.pan,
        spec_to_pb(spec_from_pb(t)).acquirer_id == t.acquirer_id,
        spec_to_pb(spec_from_pb(t)).pin_block == t.pin_block,
        spec_to_pb(spec_from_pb(t)) == t,
{
    lemma_decode_encoded(t.mti);
    lemma_decode_encoded(t.pan);
    lemma_decode_encoded(t.acquirer_id);
    lemma_decode_encoded(t.pin_block);
    let a = t.amount;
    assert((a as u64) as i64 == a) by (bit_vector);
}

} // verus!
