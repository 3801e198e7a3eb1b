use payment_switch::canonical::{
    from_pb, LocalDate, LocalTime, MessageClass, ProcessingCode, ResponseCode, Rrn, Stan, Transaction, TransactionType,
    UniversalPaymentEvent,
};
use payment_switch::dialect::{Base24Dialect, DialectRouter};
use payment_switch::edge::upstream_message;
use payment_switch::engine::{forward_upstream, ComplianceGuard};
use payment_switch::guard::{reaper_interval_ms, IdempotencyGuard, NatTable, ReplyOutcome};
use payment_switch::ingress::{ingress_admissible, ingress_decision, IngressAction};
use payment_switch::iso_fields::{read_llvar, ParseError};
use payment_switch::proto::{DialectAdapter, InteracDialect, Iso8583Message};
use payment_switch::routing::{startup_route_table, BinTrie, RouteDestination};
use payment_switch::simulator::{record_history, HistoryRecord, SimStatus, StatusCounters};
use payment_switch::state::{NetworkState, StipEngine, StipRule};
use payment_switch::text::to_text;
use payment_switch::vault::TspVault;

fn purchase(pan: &[u8], stan: &str, rrn: &str) -> UniversalPaymentEvent {
    UniversalPaymentEvent {
        message_class: MessageClass::Authorization,
        transaction_type: TransactionType::Purchase,
        mti: b"0100".to_vec(),
        fpan: pan.to_vec(),
        dpan: None,
        is_tokenized: false,
        tavv_cryptogram: None,
        processing_code: ProcessingCode("000000".to_string()),
        amount: 5000,
        stan: Stan(stan.to_string()),
        local_time: LocalTime("120000".to_string()),
        local_date: LocalDate("1231".to_string()),
        rrn: Rrn(rrn.to_string()),
        response_code: ResponseCode(String::new()),
        acquirer_id: b"AcqA".to_vec(),
        pin_block: Vec::new(),
        risk_score: 0,
        requires_instant_clearing: false,
        domestic_settlement_data: None,
        source_account: None,
        destination_account: None,
        original_data_elements: None,
        mac_data: None,
        is_reversal: false,
    }
}

struct Switch {
    compliance: ComplianceGuard,
    vault: TspVault,
    rules: StipEngine,
    guard: IdempotencyGuard,
}

impl Switch {
    fn new() -> Self {
        Switch { compliance: ComplianceGuard::new(), vault: TspVault::new(), rules: StipEngine::new(), guard: IdempotencyGuard::new() }
    }

    fn step(&mut self, tx: &UniversalPaymentEvent) -> (IngressAction, Option<String>) {
        assert!(ingress_admissible(tx, &self.compliance, &self.vault, &self.rules));
        ingress_decision(tx, &self.compliance, &self.vault, &self.rules, &mut self.guard, 7)
    }
}

fn reply_code(a: &IngressAction) -> Option<(Vec<u8>, String)> {
    match a {
        IngressAction::Reply(r) => Some((r.mti.clone(), r.response_code.0.clone())),
        _ => None,
    }
}

#[test]
fn ingress_sanctioned_bin_is_declined_93() {
    let mut sw = Switch::new();
    sw.compliance.block("bin:411111".to_string());
    let (a, log) = sw.step(&purchase(b"4111111111111111", "000001", "RRN1"));
    assert_eq!(reply_code(&a), Some((b"0110".to_vec(), "93".to_string())));
    assert_eq!(log, None);
    assert_eq!(sw.guard.len(), 0);
}

#[test]
fn ingress_unknown_token_is_declined_56() {
    let mut sw = Switch::new();
    let mut tx = purchase(b"4000000000001111", "000001", "RRN1");
    tx.is_tokenized = true;
    let (a, log) = sw.step(&tx);
    assert_eq!(reply_code(&a), Some((b"0110".to_vec(), "56".to_string())));
    assert_eq!(log, None);
    assert_eq!(sw.guard.len(), 0);
}

#[test]
fn ingress_known_token_is_detokenized_and_registered() {
    let mut sw = Switch::new();
    let mut tx = purchase(b"4000000000009999", "000001", "RRN1");
    tx.is_tokenized = true;
    let (a, log) = sw.step(&tx);
    assert_eq!(log, Some("400000****9999".to_string()));
    match a {
        IngressAction::Proceed { key, tx, to_hsm } => {
            assert_eq!(key, "RRN1-000001-AcqA");
            assert_eq!(tx.fpan, b"4111222233334444".to_vec());
            assert_eq!(tx.dpan, Some("4000000000009999".to_string()));
            assert!(!to_hsm);
        },
        _ => panic!("expected the transaction to be sent on"),
    }
    let entry = sw.guard.entry("RRN1-000001-AcqA").unwrap();
    assert_eq!(entry.state, NetworkState::UpstreamSent);
    assert_eq!(entry.created_at_ms, 7);
    assert_eq!(entry.transaction_data.pan, "4111222233334444");
    assert_eq!(entry.egress_stan, None);
}

#[test]
fn ingress_risky_transaction_is_declined_59_and_not_registered() {
    let mut sw = Switch::new();
    sw.rules.insert("VISA".to_string(), StipRule { action: "APPROVE_UP_TO_5000".to_string(), max_risk_score: 50 });
    let mut tx = purchase(b"4111111111111111", "000001", "RRN1");
    tx.risk_score = 80;
    let (a, _) = sw.step(&tx);
    assert_eq!(reply_code(&a), Some((b"0110".to_vec(), "59".to_string())));
    assert_eq!(sw.guard.len(), 0);
}

#[test]
fn ingress_switch_echo_is_answered_0810() {
    let mut sw = Switch::new();
    let mut tx = purchase(b"", "000001", "RRN1");
    tx.mti = b"0800".to_vec();
    tx.message_class = MessageClass::NetworkManagement;
    let (a, _) = sw.step(&tx);
    assert_eq!(reply_code(&a), Some((b"0810".to_vec(), "00".to_string())));
    assert_eq!(sw.guard.len(), 0);
}

#[test]
fn ingress_duplicate_is_declined_94() {
    let mut sw = Switch::new();
    let tx = purchase(b"4111111111111111", "000001", "RRN1");
    let (first, _) = sw.step(&tx);
    assert!(matches!(first, IngressAction::Proceed { .. }));
    let (second, _) = sw.step(&tx);
    assert_eq!(reply_code(&second), Some((b"0110".to_vec(), "94".to_string())));
    assert_eq!(sw.guard.len(), 1);
}

#[test]
fn ingress_pin_block_goes_through_the_hsm() {
    let mut sw = Switch::new();
    let mut tx = purchase(b"4111111111111111", "000001", "RRN1");
    tx.pin_block = b"1234567890ABCDEF".to_vec();
    match sw.step(&tx).0 {
        IngressAction::Proceed { to_hsm, .. } => assert!(to_hsm),
        _ => panic!("expected the transaction to be sent on"),
    }
}

#[test]
fn ingress_reversal_marks_and_posts_the_original() {
    let mut sw = Switch::new();
    let original = purchase(b"4111111111111111", "123456", "RRN-ORIG");
    sw.step(&original);
    let mut rev = purchase(b"4111111111111111", "000002", "RRN-REV");
    rev.mti = b"0400".to_vec();
    rev.is_reversal = true;
    rev.original_data_elements = Some("010012345612310000000000".to_string());
    match sw.step(&rev).0 {
        IngressAction::Reversal { ledger, reply } => {
            assert_eq!(reply.mti, b"0430".to_vec());
            assert_eq!(reply.response_code.0, "00");
            assert_eq!(ledger.len(), 1);
            assert_eq!(ledger[0].rrn.0, "RRN-ORIG");
            assert_eq!(ledger[0].stan.0, "000002");
        },
        _ => panic!("expected a reversal"),
    }
    assert_eq!(sw.guard.state_of("RRN-ORIG-123456-AcqA"), Some(NetworkState::ReversedPending));
    assert_eq!(sw.guard.len(), 1);
}

#[test]
fn ingress_reversal_with_short_original_data_posts_nothing() {
    let mut sw = Switch::new();
    let mut rev = purchase(b"4111111111111111", "000002", "RRN-REV");
    rev.is_reversal = true;
    rev.original_data_elements = Some("0100123456".to_string());
    match sw.step(&rev).0 {
        IngressAction::Reversal { ledger, reply } => {
            assert!(ledger.is_empty());
            assert_eq!(reply.mti, b"0430".to_vec());
        },
        _ => panic!("expected a reversal"),
    }
}

#[test]
fn ingress_uncuttable_pan_is_not_admissible() {
    let sw = Switch::new();
    let tx = purchase("41111é1111".as_bytes(), "000001", "RRN1");
    assert!(!ingress_admissible(&tx, &sw.compliance, &sw.vault, &sw.rules));
}

fn history_record(id: usize) -> HistoryRecord {
    HistoryRecord {
        id: id.to_string(),
        timestamp: String::new(),
        kind: "Happy Path".to_string(),
        status: "success".to_string(),
        amount: "1.00".to_string(),
        totalDurationMs: 5,
        rawIsoHex: String::new(),
        responseCode: "00".to_string(),
    }
}

#[test]
fn simulator_history_keeps_the_newest_hundred() {
    let mut h = Vec::new();
    for i in 0..150 {
        record_history(&mut h, history_record(i));
        assert!(h.len() <= 100);
    }
    assert_eq!(h.len(), 100);
    assert_eq!(h[0].id, "149");
    assert_eq!(h[99].id, "50");
}

#[test]
fn llvar_past_the_end_is_a_length_error() {
    let data = b"05abc";
    let mut off: usize = 9;
    assert_eq!(read_llvar(data, &mut off), Err(ParseError::LengthError));
    assert_eq!(off, 9);
}

#[test]
fn bare_header_with_every_field_flagged_decodes() {
    let mut raw = b"0100".to_vec();
    raw.extend_from_slice(&[0xFF, 0, 0, 0, 0, 0, 0, 0]);
    let tx = DialectRouter::Base24(Base24Dialect).decode(&raw).unwrap();
    assert_eq!(tx.mti, b"0100".to_vec());
    assert_eq!(tx.message_class, MessageClass::Authorization);
    assert!(tx.fpan.is_empty());
}

#[test]
fn upstream_frame_carries_mti_bitmap_and_rrn() {
    let tx = from_pb(&Transaction {
        mti: "0100".to_string(),
        pan: "4111111111111111".to_string(),
        processing_code: "000000".to_string(),
        amount: 1000,
        stan: "123456".to_string(),
        rrn: "123456789012".to_string(),
        response_code: "00".to_string(),
        acquirer_id: "AcquirerA".to_string(),
        pin_block: String::new(),
        local_time: "120000".to_string(),
        local_date: "1231".to_string(),
    });
    let msg = upstream_message(&tx);
    assert_eq!(msg.len(), 24);
    assert_eq!(&msg[0..4], b"0100");
    assert_eq!(&msg[12..24], b"123456789012");
}

#[test]
fn empty_bin_table_has_a_bare_root() {
    let t = BinTrie::new();
    assert!(t.root.route.is_none());
    assert!(t.root.children.is_empty());
    assert!(t.find(b"4111111111111111").is_none());
}

#[test]
fn invalid_utf8_decodes_with_a_replacement_character() {
    assert_eq!(to_text(b"0200"), "0200");
    assert!(to_text(&[0x30, 0xFF, 0x30, 0x30]).contains('\u{FFFD}'));
}

#[test]
fn simulator_claims_stop_at_the_target() {
    let mut s = StatusCounters::default();
    assert!(!s.claim());
    s.start(2);
    assert!(s.claim());
    assert!(s.claim());
    assert!(!s.claim());
    assert_eq!(s.generated, 2);
    assert_eq!(s.in_flight, 2);
    s.abandon();
    assert_eq!(s.in_flight, 1);
    s.record(SimStatus::Success, 10);
    assert_eq!(s.in_flight, 0);
    assert_eq!(s.completed, 1);
    assert_eq!(s.success, 1);
    assert_eq!(s.avg_latency_ms, 10);
    assert_eq!(s.completed, s.success + s.timeout + s.decline);
}

#[test]
fn reaper_pause_follows_the_timeout() {
    assert_eq!(reaper_interval_ms(15000), 1000);
    assert_eq!(reaper_interval_ms(1000), 1000);
    assert_eq!(reaper_interval_ms(500), 250);
    assert_eq!(reaper_interval_ms(1), 1);
    assert_eq!(reaper_interval_ms(0), 1);
}

#[test]
fn field_running_past_the_end_is_a_length_error() {
    let mut raw = b"0100".to_vec();
    raw.extend_from_slice(&[0x60, 0, 0, 0, 0, 0, 0, 0]);
    raw.extend_from_slice(b"02AB");
    assert_eq!(DialectRouter::Base24(Base24Dialect).decode(&raw).err(), Some(ParseError::LengthError));
    assert_eq!(DialectRouter::Base24(Base24Dialect).decode(b"0100").err(), Some(ParseError::LengthError));
}

#[test]
fn startup_routes_send_cards_by_network() {
    let t = startup_route_table();
    match t.find(b"4111111111111111") {
        Some(r) => {
            assert_eq!(r.destination, RouteDestination::ExternalNode("MockVisaNode".to_string()));
            assert_eq!(r.failover_node, None);
        },
        None => panic!("a 4 card should be routed"),
    }
    match t.find(b"5500000000000004") {
        Some(r) => assert_eq!(r.destination, RouteDestination::ExternalNode("MockMastercardNode".to_string())),
        None => panic!("a 5 card should be routed"),
    }
    assert!(t.find(b"6011000000000000").is_none());
}

#[test]
fn forwarded_transaction_is_found_by_its_bank_reply() {
    let mut sw = Switch::new();
    let tx = purchase(b"4111111111111111", "123456", "123456789012");
    let (a, _) = sw.step(&tx);
    let (key, mut fwd) = match a {
        IngressAction::Proceed { key, tx, .. } => (key, tx),
        _ => panic!("expected the transaction to be sent on"),
    };
    let mut table = NatTable::new();
    assert!(forward_upstream(&mut fwd, &mut table, &mut sw.guard, &key, 1_000_042));
    assert_eq!(fwd.stan.0, "000042");
    assert_eq!(sw.guard.entry(&key).unwrap().egress_stan, Some("000042".to_string()));
    let reply = Transaction {
        mti: "0110".to_string(),
        pan: "4111111111111111".to_string(),
        processing_code: "000000".to_string(),
        amount: 5000,
        stan: "000042".to_string(),
        rrn: "123456789012".to_string(),
        response_code: "00".to_string(),
        acquirer_id: "AcqA".to_string(),
        pin_block: String::new(),
        local_time: "120000".to_string(),
        local_date: "1231".to_string(),
    };
    match sw.guard.on_bank_reply(&mut table, &reply) {
        ReplyOutcome::Deliver { key: k, .. } => assert_eq!(k, key),
        _ => panic!("the reply should find its transaction"),
    }
    assert_eq!(table.remove("000042"), None);
}

#[test]
fn interac_instant_clearing_only_for_0200() {
    let mut raw = vec![0x30, 0xFF, 0x30, 0x30];
    raw.extend_from_slice(&[0u8; 8]);
    let ev = InteracDialect.parse(&Iso8583Message { payload: raw }).unwrap();
    assert!(!ev.requires_instant_clearing);
    let mut raw = b"0200".to_vec();
    raw.extend_from_slice(&[0u8; 8]);
    let ev = InteracDialect.parse(&Iso8583Message { payload: raw }).unwrap();
    assert!(ev.requires_instant_clearing);
}
