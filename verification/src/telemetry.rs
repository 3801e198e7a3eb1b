//! The switch's telemetry events and the log line each one is written as.
use vstd::prelude::*;
use vstd::string::StringExecFns;
use crate::numeric::{decimal_digits, decimal_text};
use crate::text::{ascii_chars, ascii_text};

verus! {

/// Something worth logging.
#[derive(Debug, Clone)]
pub enum TelemetryEvent {
    EngineStarted { workers: usize },
    TransactionReceived { rrn: String, stan: String, acquirer_id: String },
    DuplicateDetected { key: String },
    Journaled { rrn: String, size_bytes: usize },
    RoutingFailed { rrn: String },
    Routed { rrn: String },
    LateBankReplyDropped { rrn: String },
    StipFallbackAuthorized { rrn: String, amount: u64 },
    StipFallbackDeclined { rrn: String, reason: String },
}

/// `n` in decimal.
pub open spec fn number_text(n: nat) -> Seq<char> {
    ascii_chars(decimal_digits(n))
}

/// The log line of an event.
pub open spec fn event_line(e: TelemetryEvent) -> Seq<char> {
    match e {
        TelemetryEvent::EngineStarted { workers } => "[INFO] SEDA Engine started with "@ + number_text(
            workers as nat,
        ) + " MPMC workers"@,
        TelemetryEvent::TransactionReceived { rrn, stan, acquirer_id } => "[DEBUG] Received Tx -> RRN: "@ + rrn@
            + " STAN: "@ + stan@ + " Acquirer: "@ + acquirer_id@,
        TelemetryEvent::DuplicateDetected { key } => "[WARN] Idempotency Guard BLOCKED duplicate: "@ + key@,
        TelemetryEvent::Journaled { rrn, size_bytes } => "[INFO] Journaled RRN: "@ + rrn@ + " ("@ + number_text(
            size_bytes as nat,
        ) + " bytes)"@,
        TelemetryEvent::RoutingFailed { rrn } => "[ERROR] Egress bounds full, dropped RRN: "@ + rrn@,
        TelemetryEvent::Routed { rrn } => "[INFO] Routed Tx -> RRN: "@ + rrn@,
        TelemetryEvent::LateBankReplyDropped { rrn } => "[WARN] Phantom Approval Reversed & Dropped! RRN: "@ + rrn@,
        TelemetryEvent::StipFallbackAuthorized { rrn, amount } => "[STIP] Offline Fallback AUTHORIZED: RRN: "@ + rrn@
            + " | Confirmed: $"@ + number_text(amount as nat),
        TelemetryEvent::StipFallbackDeclined { rrn, reason } => "[STIP] Offline Fallback DECLINED: RRN: "@ + rrn@
            + " | Reason: "@ + reason@,
    }
}

fn number_string(n: u64) -> (r: String)
    ensures
        r@ == number_text(n as nat),
{
    let d = decimal_text(n);
    proof {
        crate::numeric::lemma_decimal_digits(n as nat);
        assert(crate::text::all_ascii(d@)) by {
            assert forall|i: int| 0 <= i < d@.len() implies #[trigger] d@[i] < 128 by {
                assert(crate::numeric::is_digit(d@[i]));
            }
        }
    }
    ascii_text(d.as_slice())
}

impl TelemetryEvent {
    /// The log line of the event.
    pub fn line(&self) -> (r: String)
        ensures
            r@ == event_line(*self),
    {
        match self {
            TelemetryEvent::EngineStarted { workers } => {
                let mut s = String::from_str("[INFO] SEDA Engine started with ");
                s.append(number_string(*workers as u64).as_str());
                s.append(" MPMC workers");
                s
            },
            TelemetryEvent::TransactionReceived { rrn, stan, acquirer_id } => {
                let mut s = String::from_str("[DEBUG] Received Tx -> RRN: ");
                s.append(rrn.as_str());
                s.append(" STAN: ");
                s.append(stan.as_str());
                s.append(" Acquirer: ");
                s.append(acquirer_id.as_str());
                s
            },
            TelemetryEvent::DuplicateDetected { key } => {
                let mut s = String::from_str("[WARN] Idempotency Guard BLOCKED duplicate: ");
                s.append(key.as_str());
                s
            },
            TelemetryEvent::Journaled { rrn, size_bytes } => {
                let mut s = String::from_str("[INFO] Journaled RRN: ");
                s.append(rrn.as_str());
                s.append(" (");
                s.append(number_string(*size_bytes as u64).as_str());
                s.append(" bytes)");
                s
            },
            TelemetryEvent::RoutingFailed { rrn } => {
                let mut s = String::from_str("[ERROR] Egress bounds full, dropped RRN: ");
                s.append(rrn.as_str());
                s
            },
            TelemetryEvent::Routed { rrn } => {
                let mut s = String::from_str("[INFO] Routed Tx -> RRN: ");
                s.append(rrn.as_str());
                s
            },
            TelemetryEvent::LateBankReplyDropped { rrn } => {
                let mut s = String::from_str("[WARN] Phantom Approval Reversed & Dropped! RRN: ");
                s.append(rrn.as_str());
                s
            },
            TelemetryEvent::StipFallbackAuthorized { rrn, amount } => {
                let mut s = String::from_str("[STIP] Offline Fallback AUTHORIZED: RRN: ");
                s.append(rrn.as_str());
                s.append(" | Confirmed: $");
                s.append(number_string(*amount).as_str());
                s
            },
            TelemetryEvent::StipFallbackDeclined { rrn, reason } => {
                let mut s = String::from_str("[STIP] Offline Fallback DECLINED: RRN: ");
                s.append(rrn.as_str());
                s.append(" | Reason: ");
                s.append(reason.as_str());
                s
            },
        }
    }
}

} // verus!
