use payment_switch::canonical::{
    LocalDate, LocalTime, MessageClass, ProcessingCode, ResponseCode, Rrn, Stan, Transaction, TransactionType,
    UniversalPaymentEvent,
};
use payment_switch::dialect::{Base24Dialect, ConnexDialect, DialectRouter};
use payment_switch::engine::{
    apply_detokenization, assign_egress_stan, checked_compliance_bin_key, ComplianceGuard, compliance_bin_key, decline, echo_reply, egress_stan_text,
    hsm_verdict, is_switch_echo, needs_hsm, network_of_pan, original_stan, reversal_ack, reversal_target,
    risk_declines, risk_threshold, select_egress, stip_fallback,
};
use payment_switch::guard::{idempotency_key, ActiveTransaction, IdempotencyGuard, NatTable, ReplyOutcome};
use payment_switch::routing::{Route, RouteDestination};
use payment_switch::state::{CardProfile, NetworkState, StipEngine, StipRule};
use payment_switch::vault::TspVault;

fn event(mti: &str, class: MessageClass) -> UniversalPaymentEvent {
    UniversalPaymentEvent {
        message_class: class,
        transaction_type: TransactionType::Purchase,
        mti: mti.as_bytes().to_vec(),
        fpan: b"4111111111111111".to_vec(),
        dpan: None,
        is_tokenized: false,
        tavv_cryptogram: None,
        processing_code: ProcessingCode("000000".to_string()),
        amount: 5000,
        stan: Stan("000111".to_string()),
        local_time: LocalTime("120000".to_string()),
        local_date: LocalDate("1231".to_string()),
        rrn: Rrn("RRN1".to_string()),
        response_code: ResponseCode(String::new()),
        acquirer_id: b"AcqA".to_vec(),
        pin_block: Vec::new(),
        risk_score: 0,
        requires_instant_clearing: false,
        domestic_settlement_data: None,
        source_account: None,
        destination_account: None,
        original_data_elements: None,
        mac_data: None,
        is_reversal: false,
    }
}

fn record(stan: &str, rrn: &str) -> Transaction {
    Transaction {
        mti: "0100".to_string(),
        pan: "4111111111111111".to_string(),
        processing_code: "000000".to_string(),
        amount: 5000,
        stan: stan.to_string(),
        rrn: rrn.to_string(),
        response_code: String::new(),
        acquirer_id: "AcqA".to_string(),
        pin_block: String::new(),
        local_time: "120000".to_string(),
        local_date: "1231".to_string(),
    }
}

fn in_flight(created: u64, state: NetworkState, egress: Option<&str>) -> ActiveTransaction {
    ActiveTransaction {
        created_at_ms: created,
        state,
        transaction_data: record("000111", "RRN1"),
        egress_stan: egress.map(|s| s.to_string()),
    }
}

#[test]
fn idempotency_guard_rejects_duplicates() {
    let key = idempotency_key("123456789012", "123456", "AcquirerA");
    assert_eq!(key, "123456789012-123456-AcquirerA");
    let mut guard = IdempotencyGuard::new();
    assert!(guard.register(key.clone(), in_flight(0, NetworkState::HSMPending, None)));
    assert!(!guard.register(key.clone(), in_flight(5, NetworkState::UpstreamSent, None)));
    assert_eq!(guard.len(), 1);
    assert_eq!(guard.state_of(&key), Some(NetworkState::HSMPending));
    assert!(guard.set_state(&key, NetworkState::UpstreamSent));
    assert!(guard.set_egress_stan(&key, "000007".to_string()));
    assert!(!guard.set_state("missing", NetworkState::Completed));
    assert!(guard.remove(&key).is_some());
    assert!(!guard.contains_key(&key));
    assert!(guard.register(key, in_flight(9, NetworkState::HSMPending, None)));
}

#[test]
fn bank_reply_is_matched_through_the_stan_table() {
    let key = idempotency_key("RRN1", "000111", "AcqA");
    let mut guard = IdempotencyGuard::new();
    let mut table = NatTable::new();
    guard.register(key.clone(), in_flight(0, NetworkState::UpstreamSent, Some("000005")));
    table.insert("000005".to_string(), "000111".to_string());
    let mut reply = record("000005", "RRN1");
    reply.mti = "0110".to_string();
    reply.response_code = "00".to_string();
    match guard.on_bank_reply(&mut table, &reply) {
        ReplyOutcome::Deliver { key: k, approval } => {
            assert_eq!(k, key);
            assert_eq!(approval.mti, "0110");
            assert_eq!(approval.response_code, "00");
        },
        _ => panic!("reply should complete the transaction"),
    }
    assert_eq!(guard.state_of(&key), Some(NetworkState::Completed));
    assert_eq!(table.remove("000005"), None);
    assert!(matches!(guard.on_bank_reply(&mut table, &record("999999", "OTHER")), ReplyOutcome::Unmatched));
}

#[test]
fn late_bank_reply_after_reversal_is_dropped() {
    let key = idempotency_key("RRN1", "000111", "AcqA");
    let mut guard = IdempotencyGuard::new();
    let mut table = NatTable::new();
    guard.register(key.clone(), in_flight(0, NetworkState::Reversed, None));
    let reply = record("000111", "RRN1");
    match guard.on_bank_reply(&mut table, &reply) {
        ReplyOutcome::LateReplyDropped { key: k } => assert_eq!(k, key),
        _ => panic!("late reply must be dropped"),
    }
    assert!(!guard.contains_key(&key));
}

#[test]
fn reaper_reverses_timeouts_and_prunes_finished() {
    let mut guard = IdempotencyGuard::new();
    let mut table = NatTable::new();
    table.insert("000005".to_string(), "000111".to_string());
    guard.register("late".to_string(), in_flight(1000, NetworkState::UpstreamSent, Some("000005")));
    guard.register("fresh".to_string(), in_flight(15000, NetworkState::UpstreamSent, None));
    guard.register("done".to_string(), in_flight(0, NetworkState::Completed, None));
    guard.register("pending".to_string(), in_flight(0, NetworkState::HSMPending, None));
    let actions = guard.reap(&mut table, 40_000, 30_000);
    assert_eq!(actions.len(), 1);
    assert_eq!(actions[0].key, "late");
    assert_eq!(actions[0].timeout_reply.mti, "0110");
    assert_eq!(actions[0].timeout_reply.response_code, "68");
    assert_eq!(actions[0].reversal.mti, "0420");
    assert_eq!(actions[0].egress_stan, Some("000005".to_string()));
    assert_eq!(table.remove("000005"), None);
    assert!(guard.contains_key("fresh"));
    assert!(guard.contains_key("pending"));
    assert!(!guard.contains_key("done"));
    assert!(!guard.contains_key("late"));
}

#[test]
fn reversal_marks_matching_stans() {
    let mut guard = IdempotencyGuard::new();
    guard.register("a".to_string(), in_flight(0, NetworkState::UpstreamSent, None));
    let mut other = in_flight(0, NetworkState::UpstreamSent, None);
    other.transaction_data = record("000222", "RRN2");
    guard.register("b".to_string(), other);
    let rrns = guard.mark_reversal_pending("000111");
    assert_eq!(rrns, vec!["RRN1".to_string()]);
    assert_eq!(guard.state_of("a"), Some(NetworkState::ReversedPending));
    assert_eq!(guard.state_of("b"), Some(NetworkState::UpstreamSent));
}

#[test]
fn stan_table_roundtrip() {
    let mut table = NatTable::new();
    table.insert("000001".to_string(), "123456".to_string());
    table.insert("000001".to_string(), "654321".to_string());
    assert_eq!(table.remove("000001"), Some("654321".to_string()));
    assert_eq!(table.remove("000001"), None);
}

#[test]
fn risk_prescreen_by_network() {
    let mut rules = StipEngine::new();
    rules.insert("VISA".to_string(), StipRule { action: "APPROVE_UP_TO_5000".to_string(), max_risk_score: 70 });
    assert_eq!(network_of_pan(b"4111"), "VISA");
    assert_eq!(network_of_pan(b"5111"), "MASTERCARD");
    assert_eq!(network_of_pan(b""), "DEFAULT");
    assert_eq!(risk_threshold(&rules, "VISA"), 70);
    assert_eq!(risk_threshold(&rules, "DEFAULT"), 100);
    let mut tx = event("0100", MessageClass::Authorization);
    tx.risk_score = 80;
    assert!(risk_declines(&tx, &rules));
    tx.risk_score = 70;
    assert!(!risk_declines(&tx, &rules));
    tx.risk_score = 0;
    assert!(!risk_declines(&tx, &rules));
    tx.fpan = b"6011000000000000".to_vec();
    tx.risk_score = 100;
    assert!(!risk_declines(&tx, &rules));
    let d = decline(&tx, "59");
    assert_eq!(d.mti, b"0110".to_vec());
    assert_eq!(d.response_code.0, "59");
}

#[test]
fn echo_and_reversal_replies() {
    let mut probe = event("0800", MessageClass::NetworkManagement);
    probe.fpan = b"0000000000000000".to_vec();
    assert!(is_switch_echo(&probe));
    let r = echo_reply(&probe);
    assert_eq!(r.mti, b"0810".to_vec());
    assert_eq!(r.response_code.0, "00");
    assert_eq!(r.message_class, MessageClass::NetworkManagementResponse);
    assert!(!is_switch_echo(&event("0800", MessageClass::NetworkManagement)));
    let ack = reversal_ack(&event("0420", MessageClass::ReversalAdvice));
    assert_eq!(ack.mti, b"0430".to_vec());
    assert_eq!(ack.response_code.0, "00");
    assert_eq!(original_stan("0100654321123456789012"), Some("654321".to_string()));
    assert_eq!(original_stan("0100654321"), None);
}

#[test]
fn egress_selection_fails_over() {
    let route = Route {
        destination: RouteDestination::ExternalNode("BANK_A".to_string()),
        failover_node: Some("BANK_B".to_string()),
    };
    let auth = MessageClass::Authorization;
    assert_eq!(select_egress(auth, Some(&route), None, None), Some("BANK_A".to_string()));
    assert_eq!(select_egress(auth, Some(&route), Some(false), Some(true)), Some("BANK_B".to_string()));
    assert_eq!(select_egress(auth, Some(&route), Some(false), Some(false)), None);
    assert_eq!(select_egress(MessageClass::NetworkManagementResponse, Some(&route), None, None), None);
    assert_eq!(select_egress(auth, None, None, None), None);
    let crdb = Route { destination: RouteDestination::InternalCrdb, failover_node: None };
    assert_eq!(select_egress(MessageClass::Financial, Some(&crdb), Some(false), None), Some("CRDB_DOMAIN_2".to_string()));
    assert_eq!(reversal_target(Some(&route)), Some("BANK_A".to_string()));
    assert_eq!(reversal_target(Some(&crdb)), None);
}

#[test]
fn egress_stan_assignment() {
    assert_eq!(egress_stan_text(42), "000042");
    assert_eq!(egress_stan_text(1_000_042), "000042");
    let mut tx = event("0100", MessageClass::Authorization);
    let mut table = NatTable::new();
    let stan = assign_egress_stan(&mut tx, &mut table, 7);
    assert_eq!(stan, "000007");
    assert_eq!(tx.stan.0, "000007");
    assert_eq!(table.remove("000007"), Some("000111".to_string()));
}

#[test]
fn stip_fallback_outcomes() {
    let tx = event("0100", MessageClass::Authorization);
    let ok = stip_fallback(&tx, Some(Some(CardProfile { balance: 10000, is_blocked: false })));
    assert_eq!(ok.reply.mti, b"0110".to_vec());
    assert_eq!(ok.reply.response_code.0, "00");
    assert_eq!(ok.reply.processing_code.0, "STIP12");
    assert_eq!(ok.updated_profile, Some(CardProfile { balance: 5000, is_blocked: false }));
    let blocked = stip_fallback(&tx, Some(Some(CardProfile { balance: 10000, is_blocked: true })));
    assert_eq!(blocked.reply.response_code.0, "41");
    assert_eq!(blocked.updated_profile, None);
    let short = stip_fallback(&tx, Some(Some(CardProfile { balance: 4999, is_blocked: false })));
    assert_eq!(short.reply.response_code.0, "51");
    assert_eq!(stip_fallback(&tx, None).reply.response_code.0, "05");
    assert_eq!(stip_fallback(&tx, Some(None)).reply.response_code.0, "05");
}

#[test]
fn hsm_stage_verdicts() {
    let route = Route {
        destination: RouteDestination::ExternalNode("BANK_A".to_string()),
        failover_node: None,
    };
    let v = hsm_verdict(Some(&route), false, true, true, true, None, None);
    assert!(v.valid);
    assert_eq!(v.target, Some("BANK_A".to_string()));
    let v = hsm_verdict(Some(&route), true, true, true, false, None, None);
    assert!(!v.valid);
    let crdb = Route { destination: RouteDestination::InternalCrdb, failover_node: None };
    assert!(!hsm_verdict(Some(&crdb), false, true, false, false, None, None).valid);
    let v = hsm_verdict(Some(&crdb), true, true, false, false, None, None);
    assert_eq!(v.target, Some("CRDB_DOMAIN_2".to_string()));
    let mut tx = event("0100", MessageClass::Authorization);
    assert!(!needs_hsm(&tx));
    tx.pin_block = b"1234567890ABCDEF".to_vec();
    assert!(needs_hsm(&tx));
}

#[test]
fn compliance_and_detokenization() {
    assert_eq!(compliance_bin_key(b"4111111111111111"), Some("bin:411111".to_string()));
    assert_eq!(compliance_bin_key(b"4111"), None);
    let mut tx = event("0100", MessageClass::Authorization);
    tx.fpan = b"4000000000009999".to_vec();
    apply_detokenization(&mut tx, "4111111111111111");
    assert_eq!(tx.fpan, b"4111111111111111".to_vec());
    assert_eq!(tx.dpan, Some("4000000000009999".to_string()));
}

#[test]
fn dialects_share_the_universal_layout() {
    let tx = event("0100", MessageClass::Authorization);
    let a = DialectRouter::Base24(Base24Dialect).encode(&tx).unwrap();
    let b = DialectRouter::Connex(ConnexDialect).encode(&tx).unwrap();
    assert_eq!(a, b);
    let back = DialectRouter::Connex(ConnexDialect).decode(&a).unwrap();
    assert_eq!(back.rrn.0, "RRN1        ");
}

#[test]
fn compliance_key_of_uncuttable_pan_is_refused() {
    assert_eq!(checked_compliance_bin_key("41111é1111".as_bytes()), None);
    assert_eq!(checked_compliance_bin_key(b"4111111111"), Some(Some("bin:411111".to_string())));
    assert_eq!(checked_compliance_bin_key(b"41"), Some(None));
}

#[test]
fn bank_reply_after_timeout_reversal_is_not_delivered() {
    let key = idempotency_key("LATE_REPLY_123", "000111", "AcqA");
    let mut guard = IdempotencyGuard::new();
    let mut table = NatTable::new();
    let mut entry = in_flight(0, NetworkState::UpstreamSent, Some("888888"));
    entry.transaction_data = record("000111", "LATE_REPLY_123");
    guard.register(key.clone(), entry);
    table.insert("888888".to_string(), "000111".to_string());
    let actions = guard.reap(&mut table, 1_000, 250);
    assert_eq!(actions.len(), 1);
    assert_eq!(actions[0].reversal.mti, "0420");
    assert_eq!(actions[0].timeout_reply.response_code, "68");
    let mut reply = record("888888", "LATE_REPLY_123");
    reply.mti = "0110".to_string();
    assert!(matches!(guard.on_bank_reply(&mut table, &reply), ReplyOutcome::Unmatched));
    assert!(!guard.contains_key(&key));
}

#[test]
fn token_vault_detokenizes_its_test_token() {
    let vault = TspVault::new();
    assert_eq!(vault.detokenize("4000000000009999"), Some("4111222233334444".to_string()));
    assert_eq!(vault.detokenize("4111111111111111"), None);
}

#[test]
fn compliance_blocks_listed_bins() {
    let mut guard = ComplianceGuard::new();
    guard.block("bin:411111".to_string());
    assert!(guard.evaluate(b"4111111111111111"));
    assert!(!guard.evaluate(b"5111111111111111"));
    assert!(!guard.evaluate(b"41"));
}
