use payment_switch::canonical::{MessageClass, Transaction};
use payment_switch::dialect::{Base24Dialect, DialectRouter};
use payment_switch::edge::{
    apple_pay_transaction, drop_reversal, inject_frame, probe_transaction, saf_eligible, saf_key,
};
use payment_switch::engine::original_stan_ok;
use payment_switch::hsm::{
    cb_translation, formatted_pan, hsm_command_ok, pan_field_ok, next_header_text, pin_translation_command, process_hsm_command,
    translate_pin_outcome, translate_pin_payload, verify_pin_outcome, verify_pin_payload,
};
use payment_switch::ledger::{
    accounts_for, bin_cut_ok, ledger_institution, ledger_posting, mask_ok, masked_pan, routing_bin, AccountMapping,
};
use payment_switch::settlement::{
    count_key, counts_toward_settlement, is_total_key, journal_frame_bytes, journal_has_room, read_be_u64, scan_wal,
    tally_step,
};
use payment_switch::simulator::{
    hex_lower, process_bank_rules, prune_completions, sim_amount_range, sim_plan, sim_status, sim_transaction,
    SimStatus, StatusCounters,
};
use payment_switch::telemetry::TelemetryEvent;
use payment_switch::thales::ThalesMessage;

fn msg(command: &str, payload: &str) -> ThalesMessage {
    ThalesMessage { header: "0001".to_string(), command: command.to_string(), payload: payload.to_string() }
}

#[test]
fn hsm_command_payloads() {
    assert_eq!(formatted_pan("4111111111111111"), "111111111111");
    assert_eq!(formatted_pan("41111"), "41111");
    assert_eq!(
        verify_pin_payload("1234567890ABCDEF", "4111111111111111", "1234"),
        "AWK12345678901231234567890ABCDEF01111111111111PVK12345678901231234"
    );
    assert_eq!(
        translate_pin_payload("1234567890ABCDEF", "4111111111111111"),
        "AWK1234567890123ZWK1234567890123121234567890ABCDEF01111111111111"
    );
    assert_eq!(
        pin_translation_command("ZPK1234567890123", "AWK1234567890123", "4111111111111111", "1234567890ABCDEF"),
        "CAZPK1234567890123AWK1234567890123121111111111111234567890ABCDEF"
    );
    assert_eq!(next_header_text(7), "0007");
    assert_eq!(next_header_text(10_007), "0007");
}

#[test]
fn hsm_translation_answer() {
    assert_eq!(cb_translation(b"CB8888888888FFFFFF"), Some("8888888888FFFFFF".to_string()));
    assert_eq!(cb_translation(b"XX8888"), None);
}

#[test]
fn hsm_answers_are_read() {
    assert_eq!(verify_pin_outcome(&msg("DB", "00")).unwrap(), true);
    assert_eq!(verify_pin_outcome(&msg("DB", "05")).unwrap(), false);
    assert_eq!(verify_pin_outcome(&msg("DB", "01")).unwrap_err().0, "Invalid Verify PIN DB HSM Response");
    assert_eq!(translate_pin_outcome(&msg("CB", "00FEDC")).unwrap(), "FEDC");
    assert_eq!(translate_pin_outcome(&msg("CB", "01")).unwrap_err().0, "Failed to translate PIN");
}

#[test]
fn test_hsm_answers_commands() {
    let payload = translate_pin_payload("1234567890ABCDEF", "4111111111111111");
    let r = process_hsm_command(msg("CA", &payload));
    assert_eq!(r.command, "CB");
    assert_eq!(r.payload, "00FEDCBA0987654321");
    assert_eq!(r.header, "0001");
    assert_eq!(process_hsm_command(msg("CA", "short")).payload, "01");
    let verify = verify_pin_payload("1234567890ABCDEF", "4111111111111111", "9999");
    assert_eq!(process_hsm_command(msg("DA", &verify)).payload, "05");
    let verify = verify_pin_payload("1234567890ABCDEF", "4111111111111111", "1234");
    let r = process_hsm_command(msg("DA", &verify));
    assert_eq!(r.command, "DB");
    assert_eq!(r.payload, "00");
    assert_eq!(process_hsm_command(msg("DA", "x")).payload, "01");
    let r = process_hsm_command(msg("NC", ""));
    assert_eq!(r.command, "NB");
    assert_eq!(r.payload, "15");
}

#[test]
fn journal_frames_are_swept_in_order() {
    let mut wal = journal_frame_bytes(b"abc");
    assert_eq!(wal, vec![0, 0, 0, 3, b'a', b'b', b'c']);
    wal.extend_from_slice(&journal_frame_bytes(b"de"));
    wal.extend_from_slice(&[0, 0, 0, 0, 0, 0]);
    let (frames, end) = scan_wal(&wal, 0);
    assert_eq!(frames, vec![(4, 7), (11, 13)]);
    assert_eq!(end, 13);
    let (frames, end) = scan_wal(&wal, 7);
    assert_eq!(frames, vec![(11, 13)]);
    assert_eq!(end, 13);
    let torn = vec![0u8, 0, 0, 9, 1, 2];
    let (frames, end) = scan_wal(&torn, 0);
    assert!(frames.is_empty());
    assert_eq!(end, 0);
    assert!(journal_has_room(0, 4, 8));
    assert!(!journal_has_room(1, 4, 8));
}

#[test]
fn settlement_tallies() {
    let mut t = Transaction { mti: "0100".to_string(), response_code: "00".to_string(), ..Default::default() };
    assert!(counts_toward_settlement(&t));
    t.response_code = "51".to_string();
    assert!(!counts_toward_settlement(&t));
    assert_eq!(tally_step(300, 4, 100), (400, 5));
    assert_eq!(count_key("BankA"), "BankA_count");
    assert!(is_total_key(b"BankA"));
    assert!(!is_total_key(b"BankA_count"));
    assert!(!is_total_key(b"cursor_offset"));
    assert_eq!(read_be_u64(&400u64.to_be_bytes()), 400);
}

#[test]
fn simulator_statuses_and_plan() {
    assert_eq!(sim_status("00", 10), SimStatus::Success);
    assert_eq!(sim_status("68", 10), SimStatus::Timeout);
    assert_eq!(sim_status("51", 6000), SimStatus::Timeout);
    assert_eq!(sim_status("51", 10), SimStatus::Decline);
    assert_eq!(SimStatus::Decline.as_text(), "decline");
    assert_eq!(sim_plan(None, None), (100, 10));
    assert_eq!(sim_plan(Some(0), Some(4)), (1, 4));
    assert_eq!(sim_amount_range(true), (50001, 999999));
    assert_eq!(sim_amount_range(false), (100, 49999));
    let mut times = vec![0u64, 1000, 9000, 9500];
    assert_eq!(prune_completions(&mut times, 10_000), 0);
    assert_eq!(times, vec![9000, 9500]);
    let mut c = StatusCounters::default();
    c.start(50);
    c.in_flight = 2;
    c.record(SimStatus::Success, 120);
    c.record(SimStatus::Timeout, 300);
    assert_eq!((c.completed, c.success, c.timeout, c.in_flight), (2, 1, 1, 0));
    assert_eq!(c.avg_latency_ms, 150);
    assert_eq!(c.total_target, 50);
    assert_eq!(hex_lower(&[0x0a, 0xff]), "0aff");
}

#[test]
fn mock_bank_rules() {
    let dialect = DialectRouter::Base24(Base24Dialect);
    let tx = sim_transaction("RRN000000001".to_string(), 1_000_000, "120000".to_string(), "1231".to_string(), 60000);
    assert_eq!(tx.stan.0, "000001");
    assert_eq!(tx.mti, b"0200".to_vec());
    let raw = process_bank_rules(&tx, &dialect).unwrap();
    let resp = dialect.decode(&raw).unwrap();
    assert_eq!(resp.mti, b"0210".to_vec());
    assert_eq!(resp.response_code.0, "51");
    let mut small = tx.clone();
    small.amount = 100;
    let resp = dialect.decode(&process_bank_rules(&small, &dialect).unwrap()).unwrap();
    assert_eq!(resp.response_code.0, "00");
    small.fpan = b"4111111111119999".to_vec();
    let resp = dialect.decode(&process_bank_rules(&small, &dialect).unwrap()).unwrap();
    assert_eq!(resp.response_code.0, "59");
    let mut echo = tx.clone();
    echo.message_class = MessageClass::NetworkManagement;
    let resp = dialect.decode(&process_bank_rules(&echo, &dialect).unwrap()).unwrap();
    assert_eq!(resp.mti, b"0810".to_vec());
    let mut other = tx;
    other.message_class = MessageClass::FileUpdate;
    assert!(process_bank_rules(&other, &dialect).is_none());
}

#[test]
fn ledger_postings() {
    assert_eq!(ledger_institution("4111"), "CITI");
    assert_eq!(ledger_institution("5111"), "DANSKE_BANK");
    assert_eq!(ledger_institution("6011"), "DEFAULT_INST");
    let m = AccountMapping { vostro_account_id: "V1".to_string(), nostro_account_id: "N1".to_string() };
    assert_eq!(accounts_for(Some(&m)), ("V1".to_string(), "N1".to_string()));
    assert_eq!(accounts_for(None), ("UNKNOWN".to_string(), "UNKNOWN".to_string()));
    assert_eq!(masked_pan("4111111111111111"), "411111****1111");
    assert_eq!(routing_bin("4111111111111111"), "411111");
    assert_eq!(routing_bin("411"), "000000");
    let capture = ledger_posting(1000, 25, false);
    assert_eq!((capture.principal, capture.fee, capture.status), (1000, 25, "shadow"));
    let reversal = ledger_posting(1000, 25, true);
    assert_eq!((reversal.principal, reversal.fee, reversal.status), (-1000, -25, "reversed_offset_hold"));
    assert_eq!(capture.principal + reversal.principal, 0);
}

#[test]
fn telemetry_lines() {
    assert_eq!(TelemetryEvent::EngineStarted { workers: 4 }.line(), "[INFO] SEDA Engine started with 4 MPMC workers");
    assert_eq!(
        TelemetryEvent::Journaled { rrn: "R1".to_string(), size_bytes: 120 }.line(),
        "[INFO] Journaled RRN: R1 (120 bytes)"
    );
    assert_eq!(
        TelemetryEvent::StipFallbackAuthorized { rrn: "R1".to_string(), amount: 5000 }.line(),
        "[STIP] Offline Fallback AUTHORIZED: RRN: R1 | Confirmed: $5000"
    );
    assert_eq!(
        TelemetryEvent::DuplicateDetected { key: "k".to_string() }.line(),
        "[WARN] Idempotency Guard BLOCKED duplicate: k"
    );
}

#[test]
fn edge_rules() {
    assert!(saf_eligible(b"0420"));
    assert!(saf_eligible(b"0220"));
    assert!(!saf_eligible(b"0100"));
    assert_eq!(saf_key("000111", "RRN1"), "000111-RRN1");
    let probe = probe_transaction(42);
    assert_eq!(probe.mti, b"0800".to_vec());
    assert_eq!(probe.stan.0, "000042");
    assert_eq!(probe.rrn.0, "PING00000042");
    assert_eq!(drop_reversal(&probe).mti, b"0420".to_vec());
    let pay = apple_pay_transaction();
    assert!(pay.is_tokenized);
    assert_eq!(pay.amount, 8500);
    assert_eq!(inject_frame("0a0B"), Some(vec![0, 2, 10, 11]));
    assert_eq!(inject_frame("abc"), None);
    assert_eq!(inject_frame("zz"), None);
}

#[test]
fn slicing_checks_before_cutting_text() {
    assert!(pan_field_ok("4111111111111111"));
    assert!(pan_field_ok("41111"));
    assert!(!pan_field_ok("411111111111"));
    assert!(!pan_field_ok("411111111111111é"));
    assert!(hsm_command_ok(&msg("NC", "")));
    assert!(!hsm_command_ok(&msg("", "")));
    assert!(hsm_command_ok(&msg("CA", "short")));
    assert!(mask_ok("4111111111111111"));
    assert!(!mask_ok("41111é111111"));
    assert!(bin_cut_ok("411"));
    assert!(!bin_cut_ok("41111é"));
    assert!(original_stan_ok("0100654321123456789012"));
    assert!(!original_stan_ok("010é654321123456789012"));
}
