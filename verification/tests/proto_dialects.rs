use payment_switch::canonical::{
    LocalDate, LocalTime, MessageClass, ProcessingCode, ResponseCode, Rrn, Stan, TransactionType, UniversalPaymentEvent,
};
use payment_switch::iso_fields::{set_bit, ParseError};
use payment_switch::proto::{
    DataDictionary, DialectAdapter, FieldType, InteracDialect, Iso1987Dictionary, Iso1993Dictionary, Iso2003Dictionary,
    Iso8583Message, StandardDialect, UkFpsDialect,
};

fn build_test_msg(mti: &str, bitmaps: Vec<u8>, data: &str) -> Iso8583Message {
    let mut p = Vec::new();
    p.extend_from_slice(mti.as_bytes());
    p.extend_from_slice(&bitmaps);
    p.extend_from_slice(data.as_bytes());
    Iso8583Message { payload: p }
}

fn empty_event(mti: &[u8], class: MessageClass) -> UniversalPaymentEvent {
    UniversalPaymentEvent {
        message_class: class,
        transaction_type: TransactionType::Purchase,
        mti: mti.to_vec(),
        fpan: Vec::new(),
        dpan: None,
        is_tokenized: false,
        tavv_cryptogram: None,
        processing_code: ProcessingCode(String::new()),
        amount: 0,
        stan: Stan(String::new()),
        local_time: LocalTime(String::new()),
        local_date: LocalDate(String::new()),
        rrn: Rrn(String::new()),
        response_code: ResponseCode(String::new()),
        acquirer_id: Vec::new(),
        pin_block: Vec::new(),
        risk_score: 0,
        requires_instant_clearing: false,
        domestic_settlement_data: None,
        source_account: None,
        destination_account: None,
        original_data_elements: None,
        mac_data: None,
        is_reversal: false,
    }
}

#[test]
fn test_parse_1987_primary_only() {
    let mut bitmap = vec![0u8; 8];
    set_bit(&mut bitmap, 4);
    let msg = build_test_msg("0100", bitmap.to_vec(), "000000001000");

    let dialect = StandardDialect;
    let event = dialect.parse(&msg).expect("Failed to parse");
    assert_eq!(event.amount, 1000);
    assert_eq!(event.mti, b"0100".to_vec());
}

#[test]
fn test_parse_1993_secondary_bitmap_present() {
    let mut bitmap = vec![0u8; 16];
    set_bit(&mut bitmap, 1);
    set_bit(&mut bitmap, 4);
    let msg = build_test_msg("1100", bitmap.to_vec(), "000000002000");

    let dialect = StandardDialect;
    let event = dialect.parse(&msg).expect("Failed to parse");
    assert_eq!(event.amount, 2000);
    assert_eq!(event.mti, b"1100".to_vec());
}

#[test]
fn test_parse_2003_tertiary_bitmap_present() {
    let mut bitmap = vec![0u8; 24];
    set_bit(&mut bitmap, 1);
    set_bit(&mut bitmap, 65);
    set_bit(&mut bitmap, 4);
    let msg = build_test_msg("2100", bitmap.to_vec(), "000000003000");

    let dialect = StandardDialect;
    let event = dialect.parse(&msg).expect("Failed to parse");
    assert_eq!(event.amount, 3000);
    assert_eq!(event.mti, b"2100".to_vec());
}

#[test]
fn standard_rejects_short_message() {
    let msg = Iso8583Message { payload: b"0100".to_vec() };
    assert!(matches!(StandardDialect.parse(&msg), Err(ParseError::LengthError)));
}

#[test]
fn standard_rejects_unknown_field() {
    let mut bitmap = vec![0u8; 8];
    set_bit(&mut bitmap, 5);
    let msg = build_test_msg("0100", bitmap, "");
    assert!(matches!(StandardDialect.parse(&msg), Err(ParseError::InvalidFormat)));
}

#[test]
fn standard_missing_secondary_bitmap_is_length_error() {
    let mut bitmap = vec![0u8; 8];
    set_bit(&mut bitmap, 1);
    let msg = build_test_msg("0100", bitmap, "");
    assert!(matches!(StandardDialect.parse(&msg), Err(ParseError::LengthError)));
}

#[test]
fn standard_bad_llvar_length_is_invalid_format() {
    let mut bitmap = vec![0u8; 8];
    set_bit(&mut bitmap, 2);
    let msg = build_test_msg("0100", bitmap, "x9411");
    assert!(matches!(StandardDialect.parse(&msg), Err(ParseError::InvalidFormat)));
}

#[test]
fn standard_reads_risk_tag_and_cryptogram() {
    let mut bitmap = vec![0u8; 8];
    set_bit(&mut bitmap, 22);
    set_bit(&mut bitmap, 48);
    let msg = build_test_msg("0100", bitmap, "071015RSK:087:CRYPTO1");
    let event = StandardDialect.parse(&msg).expect("parse");
    assert!(event.is_tokenized);
    assert_eq!(event.risk_score, 87);
    assert_eq!(event.tavv_cryptogram, Some("CRYPTO1".to_string()));
}

#[test]
fn standard_untagged_field48_is_cryptogram_when_tokenized() {
    let mut bitmap = vec![0u8; 8];
    set_bit(&mut bitmap, 22);
    set_bit(&mut bitmap, 48);
    let msg = build_test_msg("0100", bitmap, "072004ABCD");
    let event = StandardDialect.parse(&msg).expect("parse");
    assert_eq!(event.risk_score, 0);
    assert_eq!(event.tavv_cryptogram, Some("ABCD".to_string()));
}

#[test]
fn standard_risk_score_over_255_is_ignored() {
    let mut bitmap = vec![0u8; 8];
    set_bit(&mut bitmap, 48);
    let msg = build_test_msg("0100", bitmap, "011RSK:300:ABC");
    let event = StandardDialect.parse(&msg).expect("parse");
    assert_eq!(event.risk_score, 0);
    assert_eq!(event.tavv_cryptogram, None);
}

#[test]
fn standard_checked_parse_reports_unsliceable_tag() {
    let mut bitmap = vec![0u8; 8];
    set_bit(&mut bitmap, 48);
    let mut data = b"008RSK:00".to_vec();
    data.extend_from_slice("é".as_bytes());
    let mut payload = b"0100".to_vec();
    payload.extend_from_slice(&bitmap);
    payload.extend_from_slice(&data);
    let msg = Iso8583Message { payload };
    assert!(StandardDialect.checked_parse(&msg).is_none());
}

#[test]
fn standard_reversal_and_mac_fields() {
    let mut bitmap = vec![0u8; 16];
    set_bit(&mut bitmap, 1);
    set_bit(&mut bitmap, 64);
    set_bit(&mut bitmap, 90);
    set_bit(&mut bitmap, 128);
    let data = format!("{}{}{}", "M".repeat(16), "O".repeat(42), "S".repeat(16));
    let msg = build_test_msg("0420", bitmap, &data);
    let event = StandardDialect.parse(&msg).expect("parse");
    assert!(event.is_reversal);
    assert_eq!(event.message_class, MessageClass::ReversalAdvice);
    assert_eq!(event.original_data_elements, Some("O".repeat(42)));
    assert_eq!(event.mac_data, Some("S".repeat(16)));
}

#[test]
fn standard_build_then_parse_roundtrip() {
    let mut e = empty_event(b"0110", MessageClass::Authorization);
    e.fpan = b"4111111111111111".to_vec();
    e.processing_code = ProcessingCode("000000".to_string());
    e.amount = 1234;
    e.stan = Stan("000042".to_string());
    e.rrn = Rrn("RRN000000001".to_string());
    e.response_code = ResponseCode("00".to_string());
    e.acquirer_id = b"123456".to_vec();
    e.is_tokenized = true;
    e.tavv_cryptogram = Some("TAVV".to_string());
    let msg = StandardDialect.build_response(&e);
    let back = StandardDialect.parse(&msg).expect("parse");
    assert_eq!(back.fpan, e.fpan);
    assert_eq!(back.amount, 1234);
    assert_eq!(back.stan.0, "000042");
    assert_eq!(back.rrn.0, "RRN000000001");
    assert_eq!(back.response_code.0, "00");
    assert_eq!(back.acquirer_id, e.acquirer_id);
    assert!(back.is_tokenized);
    assert_eq!(back.tavv_cryptogram, Some("TAVV".to_string()));
    assert_eq!(back.message_class, MessageClass::Authorization);
}

#[test]
fn standard_build_pads_fields() {
    let mut e = empty_event(b"01", MessageClass::Financial);
    e.rrn = Rrn("AB".to_string());
    e.stan = Stan("7".to_string());
    let msg = StandardDialect.build_response(&e);
    let mut expected = b"0110".to_vec();
    let mut bitmap = vec![0u8; 8];
    set_bit(&mut bitmap, 11);
    set_bit(&mut bitmap, 37);
    expected.extend_from_slice(&bitmap);
    expected.extend_from_slice(b"000007");
    expected.extend_from_slice(b"AB");
    expected.extend_from_slice(&[b' '; 10]);
    assert_eq!(msg.payload, expected);
}

#[test]
fn interac_roundtrip_keeps_cryptogram_and_settlement_data() {
    let mut e = empty_event(b"0200", MessageClass::Financial);
    e.amount = 0;
    e.tavv_cryptogram = Some("SUR:100".to_string());
    e.domestic_settlement_data = Some("NET-DATA".to_string());
    let msg = InteracDialect.build_response(&e);
    let back = InteracDialect.parse(&msg).expect("parse");
    assert!(back.requires_instant_clearing);
    assert_eq!(back.amount, 0);
    assert_eq!(back.tavv_cryptogram, Some("SUR:100".to_string()));
    assert_eq!(back.domestic_settlement_data, Some("NET-DATA".to_string()));
}

#[test]
fn interac_ignores_unknown_fields() {
    let mut bitmap = vec![0u8; 8];
    set_bit(&mut bitmap, 5);
    set_bit(&mut bitmap, 4);
    let msg = build_test_msg("0100", bitmap, "000000000077");
    let event = InteracDialect.parse(&msg).expect("parse");
    assert_eq!(event.amount, 77);
    assert!(!event.requires_instant_clearing);
}

#[test]
fn fps_routes_by_source_account() {
    let mut e = empty_event(b"0200", MessageClass::Financial);
    e.fpan = b"ignored".to_vec();
    e.source_account = Some("12345678".to_string());
    e.destination_account = Some("87654321".to_string());
    let msg = UkFpsDialect.build_response(&e);
    assert_eq!(msg.payload[4] & 0x80, 0x80);
    let back = UkFpsDialect.parse(&msg).expect("parse");
    assert_eq!(back.fpan, b"UKFPS-12345678".to_vec());
    assert_eq!(back.source_account, Some("12345678".to_string()));
    assert_eq!(back.destination_account, Some("87654321".to_string()));
}

#[test]
fn fps_without_accounts_has_no_secondary_bitmap() {
    let mut e = empty_event(b"0100", MessageClass::Authorization);
    e.amount = 5;
    let msg = UkFpsDialect.build_response(&e);
    assert_eq!(msg.payload.len(), 4 + 8 + 12);
}

#[test]
fn fps_truncated_secondary_bitmap_is_length_error() {
    let mut bitmap = vec![0u8; 8];
    set_bit(&mut bitmap, 1);
    let msg = build_test_msg("0200", bitmap, "");
    assert!(matches!(UkFpsDialect.parse(&msg), Err(ParseError::LengthError)));
}

#[test]
fn dictionaries_share_the_1987_layouts() {
    for f in 0..200usize {
        let a = Iso1987Dictionary.field_type(f);
        let b = Iso1993Dictionary.field_type(f);
        let c = Iso2003Dictionary.field_type(f);
        assert_eq!(a, b);
        assert_eq!(a, c);
    }
    assert_eq!(Iso1987Dictionary.field_type(90), Some(FieldType::Fixed(42)));
    assert_eq!(Iso1987Dictionary.field_type(48), Some(FieldType::Lllvar));
    assert_eq!(Iso1987Dictionary.field_type(2), Some(FieldType::Llvar));
    assert_eq!(Iso1987Dictionary.field_type(5), None);
}
