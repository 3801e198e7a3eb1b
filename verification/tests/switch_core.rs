use payment_switch::canonical::{
    from_pb, message_class_of, to_pb, LocalDate, LocalTime, MessageClass, ProcessingCode, ResponseCode, Rrn, Stan,
    Transaction, TransactionType, UniversalPaymentEvent,
};
use payment_switch::dialect::{universal_decode, universal_encode, Base24Dialect, DialectRouter};
use payment_switch::framing::{length_prefixed, IsoAdapter, Iso8583Codec};
use payment_switch::iso_parser::{parse_iso8583, parse_mti, parse_primary_bitmap, ErrorKind};
use payment_switch::routing::{build_route_table, BinTrie, Route, RouteDestination, RouteRow};
use payment_switch::state::{card_profile_from_row, stip_rule_from_row, CardProfile, NetworkState, StipEngine, StipRule};
use payment_switch::text::to_text;
use payment_switch::thales::{ThalesCodec, ThalesDecodeError, ThalesEncodeError, ThalesMessage};

fn event(mti: &str, class: MessageClass) -> UniversalPaymentEvent {
    UniversalPaymentEvent {
        message_class: class,
        transaction_type: TransactionType::Purchase,
        mti: mti.as_bytes().to_vec(),
        fpan: b"4111111111111111".to_vec(),
        dpan: None,
        is_tokenized: false,
        tavv_cryptogram: None,
        processing_code: ProcessingCode("000000".to_string()),
        amount: 1000,
        stan: Stan("123456".to_string()),
        local_time: LocalTime("120000".to_string()),
        local_date: LocalDate("1231".to_string()),
        rrn: Rrn("123456789012".to_string()),
        response_code: ResponseCode(String::new()),
        acquirer_id: b"AcquirerA".to_vec(),
        pin_block: Vec::new(),
        risk_score: 0,
        requires_instant_clearing: false,
        domestic_settlement_data: None,
        source_account: None,
        destination_account: None,
        original_data_elements: None,
        mac_data: None,
        is_reversal: false,
    }
}

#[test]
fn test_valid_0100_authorization_request() {
    let mti = b"0100";
    let bitmap = [0xFF, 0x00, 0x00, 0x00, 0x00, 0x00, 0x00, 0x00];
    let mut input = Vec::new();
    input.extend_from_slice(mti);
    input.extend_from_slice(&bitmap);

    let result = parse_iso8583(&input);
    assert!(result.is_ok(), "Failed to parse ISO message");

    let (remaining, msg) = result.unwrap();
    assert!(remaining.is_empty(), "Expected empty remainder after parsing MTI and bitmap");
    assert_eq!(msg.mti, "0100");
    assert_eq!(msg.primary_bitmap, bitmap.to_vec());
}

#[test]
fn edge_parser_refuses_other_mtis_and_short_input() {
    let mut input = b"0200".to_vec();
    input.extend_from_slice(&[0u8; 8]);
    input.extend_from_slice(b"xy");
    let err = parse_iso8583(&input).unwrap_err();
    assert_eq!(err.code, ErrorKind::Tag);
    assert_eq!(err.input, b"xy");

    let err = parse_iso8583(b"01").unwrap_err();
    assert_eq!(err.code, ErrorKind::Eof);

    let err = parse_iso8583(b"0100abc").unwrap_err();
    assert_eq!(err.code, ErrorKind::Eof);
    assert_eq!(err.input, b"abc");

    let err = parse_mti(&[0xff, 0xfe, 0x00, 0x01]).unwrap_err();
    assert_eq!(err.code, ErrorKind::MapRes);

    let (rest, bm) = parse_primary_bitmap(b"12345678Z").unwrap();
    assert_eq!(bm, b"12345678".to_vec());
    assert_eq!(rest, b"Z");
}

#[test]
fn edge_parser_keeps_the_remainder() {
    let mut input = b"0110".to_vec();
    input.extend_from_slice(&[1u8, 2, 3, 4, 5, 6, 7, 8]);
    input.extend_from_slice(b"rest");
    let (rest, msg) = parse_iso8583(&input).unwrap();
    assert_eq!(msg.mti, "0110");
    assert_eq!(rest, b"rest");
}

#[test]
fn frame_codec_roundtrip_and_partial_frames() {
    let mut codec = Iso8583Codec;
    let mut buf = Vec::new();
    codec.encode(b"hello", &mut buf);
    assert_eq!(buf, vec![0, 5, b'h', b'e', b'l', b'l', b'o']);
    buf.extend_from_slice(&[0, 3, b'a']);
    assert_eq!(codec.decode(&mut buf), Some(b"hello".to_vec()));
    assert_eq!(buf, vec![0, 3, b'a']);
    assert_eq!(codec.decode(&mut buf), None);
    assert_eq!(buf, vec![0, 3, b'a']);
    assert_eq!(length_prefixed(&[9u8; 300])[..2], [1u8, 44u8]);
}

#[test]
fn journal_record_as_iso_message() {
    let t = Transaction { mti: "0100".to_string(), ..Default::default() };
    let mut expected = b"0100".to_vec();
    expected.extend_from_slice(&[0xFF; 8]);
    assert_eq!(t.to_iso8583(), expected);
}

#[test]
fn thales_codec_roundtrip() {
    let mut codec = ThalesCodec;
    let mut buf = Vec::new();
    let m = ThalesMessage { header: "0001".to_string(), command: "CA".to_string(), payload: "PAYLOAD".to_string() };
    codec.encode(m.clone(), &mut buf).unwrap();
    assert_eq!(&buf[..2], &[0u8, 13u8]);
    buf.extend_from_slice(&[0, 9]);
    let got = codec.decode(&mut buf).unwrap().unwrap();
    assert_eq!(got, m);
    assert_eq!(buf, vec![0, 9]);
    assert!(codec.decode(&mut buf).unwrap().is_none());
}

#[test]
fn thales_codec_refusals() {
    let mut codec = ThalesCodec;
    let mut buf = vec![0u8, 3, b'0', b'0', b'1'];
    assert!(matches!(codec.decode(&mut buf), Err(ThalesDecodeError::TooShort)));
    assert!(buf.is_empty());
    let mut buf = vec![0u8, 6, 0xff, 0xfe, b'0', b'1', b'C', b'A'];
    match codec.decode(&mut buf) {
        Err(ThalesDecodeError::InvalidUtf8 { frame }) => assert_eq!(frame, vec![0xff, 0xfe, b'0', b'1', b'C', b'A']),
        other => panic!("unexpected {:?}", other),
    }
    let mut out = vec![7u8];
    let big = ThalesMessage { header: "0001".to_string(), command: "CA".to_string(), payload: "x".repeat(65530) };
    assert!(matches!(codec.encode(big, &mut out), Err(ThalesEncodeError::TooLong)));
    assert_eq!(out, vec![7u8]);
}

fn external(node: &str, failover: Option<&str>) -> Route {
    Route {
        destination: RouteDestination::ExternalNode(node.to_string()),
        failover_node: failover.map(|s| s.to_string()),
    }
}

#[test]
fn bin_trie_longest_prefix_wins() {
    let mut trie = BinTrie::new();
    trie.insert(b"4", external("VISA_NET", None));
    trie.insert(b"411111", external("ISSUER_A", Some("ISSUER_B")));
    assert_eq!(trie.find(b"4111111111111111"), Some(&external("ISSUER_A", Some("ISSUER_B"))));
    assert_eq!(trie.find(b"4222222222222222"), Some(&external("VISA_NET", None)));
    assert_eq!(trie.find(b"5111111111111111"), None);
    trie.insert(b"4", external("VISA_NET_2", None));
    assert_eq!(trie.find(b"49"), Some(&external("VISA_NET_2", None)));
}

#[test]
fn route_table_from_published_rows() {
    let rows = vec![
        RouteRow {
            bin_prefix: "4".to_string(),
            destination_type: "External".to_string(),
            target_node: Some("VISA_NET".to_string()),
            failover_node: None,
        },
        RouteRow {
            bin_prefix: "5".to_string(),
            destination_type: "External".to_string(),
            target_node: None,
            failover_node: None,
        },
        RouteRow {
            bin_prefix: "62".to_string(),
            destination_type: "InternalCrdb".to_string(),
            target_node: None,
            failover_node: Some("BACKUP".to_string()),
        },
    ];
    let trie = build_route_table(rows);
    assert_eq!(trie.find(b"4000"), Some(&external("VISA_NET", None)));
    assert_eq!(trie.find(b"5000"), None);
    assert_eq!(
        trie.find(b"6200"),
        Some(&Route { destination: RouteDestination::InternalCrdb, failover_node: Some("BACKUP".to_string()) })
    );
}

#[test]
fn stip_rules_from_rows_and_lookup() {
    let r = stip_rule_from_row(5000, 150);
    assert_eq!(r.action, "APPROVE_UP_TO_5000");
    assert_eq!(r.max_risk_score, 100);
    let r = stip_rule_from_row(-7, -3);
    assert_eq!(r.action, "APPROVE_UP_TO_-7");
    assert_eq!(r.max_risk_score, 0);
    let mut engine = StipEngine::new();
    engine.insert("VISA".to_string(), StipRule { action: "A".to_string(), max_risk_score: 70 });
    engine.insert("VISA".to_string(), StipRule { action: "B".to_string(), max_risk_score: 60 });
    assert_eq!(engine.get("VISA").unwrap().action, "B");
    assert!(engine.get("MASTERCARD").is_none());
    let _ = CardProfile { balance: 1, is_blocked: false };
    let _ = NetworkState::HSMPending;
}

#[test]
fn universal_codec_roundtrip() {
    let mut e = event("0100", MessageClass::Authorization);
    e.response_code = ResponseCode("00".to_string());
    let raw = universal_encode(&e).unwrap();
    assert_eq!(&raw[..4], b"0100");
    let back = universal_decode(&raw).unwrap();
    assert_eq!(back.mti, e.mti);
    assert_eq!(back.message_class, MessageClass::Authorization);
    assert_eq!(back.fpan, e.fpan);
    assert_eq!(back.amount, 1000);
    assert_eq!(back.stan, e.stan);
    assert_eq!(back.rrn, e.rrn);
    assert_eq!(back.response_code, e.response_code);
    assert_eq!(back.acquirer_id, e.acquirer_id);
    let router = DialectRouter::Base24(Base24Dialect);
    assert_eq!(router.encode(&e).unwrap(), raw);
    assert!(universal_decode(b"0100").is_err());
}

#[test]
fn journal_record_roundtrip() {
    let e = event("0420", MessageClass::ReversalAdvice);
    let t = to_pb(&e);
    assert_eq!(t.mti, "0420");
    assert_eq!(t.pan, "4111111111111111");
    assert_eq!(t.acquirer_id, "AcquirerA");
    let back = from_pb(&t);
    assert_eq!(back.message_class, MessageClass::ReversalAdvice);
    assert_eq!(back.fpan, e.fpan);
    assert_eq!(back.amount, e.amount);
    assert_eq!(back.rrn, e.rrn);
    assert_eq!(message_class_of(b"0800"), MessageClass::NetworkManagement);
    assert_eq!(message_class_of(b"0110"), MessageClass::Authorization);
    assert_eq!(message_class_of(b"9999"), MessageClass::Financial);
}

#[test]
fn stip_loader_status_marks_blocked_cards() {
    assert!(card_profile_from_row(100, " blocked\t").is_blocked);
    assert!(card_profile_from_row(100, "BLOCKED").is_blocked);
    assert!(card_profile_from_row(100, "0").is_blocked);
    assert!(card_profile_from_row(100, " 0 ").is_blocked);
    assert!(card_profile_from_row(100, "\u{3000}Blocked").is_blocked);
    assert!(!card_profile_from_row(100, "Active").is_blocked);
    assert!(!card_profile_from_row(100, "10").is_blocked);
    assert!(!card_profile_from_row(100, "Blocked!").is_blocked);
    assert!(!card_profile_from_row(100, "").is_blocked);
    assert_eq!(card_profile_from_row(-5, "x").balance, -5);
}

#[test]
fn base24_reads_back_a_purchase_with_text_trace_numbers() {
    let mut e = event("0200", MessageClass::Financial);
    e.amount = 14312;
    e.stan = Stan("F82300".to_string());
    e.local_time = LocalTime(String::new());
    e.local_date = LocalDate(String::new());
    e.rrn = Rrn("F82300C842F4".to_string());
    e.acquirer_id = Vec::new();
    let dialect = DialectRouter::Base24(Base24Dialect);
    let raw = dialect.encode(&e).unwrap();
    let back = dialect.decode(&raw).unwrap();
    assert_eq!(back.mti, b"0200".to_vec());
    assert_eq!(back.stan.0, "F82300");
    assert_eq!(back.rrn.0, "F82300C842F4");
    assert_eq!(back.amount, 14312);
    assert!(back.acquirer_id.is_empty());
}

#[test]
fn journal_record_survives_event_and_back() {
    let t = Transaction {
        mti: "0110".to_string(),
        pan: "5111111111111111".to_string(),
        processing_code: "000000".to_string(),
        amount: 2500,
        stan: "000042".to_string(),
        rrn: "RRN000000042".to_string(),
        response_code: "00".to_string(),
        acquirer_id: "AcquirerB".to_string(),
        pin_block: "1234567890ABCDEF".to_string(),
        local_time: "235959".to_string(),
        local_date: "0101".to_string(),
    };
    assert_eq!(to_pb(&from_pb(&t)), t);
}

#[test]
fn undecodable_bytes_are_replaced_in_text() {
    assert_eq!(to_text(&[0x66, 0xff, 0x67]), "f\u{FFFD}g");
    assert_eq!(to_text(b"0100"), "0100");
}
