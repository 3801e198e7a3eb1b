//! The load simulator and the mock bank: the transactions the simulator
//! sends, how it classifies their outcomes and keeps its counters, and the
//! rules the mock bank answers with.
use vstd::prelude::*;
use vstd::string::StringExecFns;
use crate::canonical::{
    EventView, LocalDate, LocalTime, MessageClass, ProcessingCode, ResponseCode, Rrn, Stan, TransactionType,
    UniversalPaymentEvent,
};
use crate::dialect::{blank_event, blank_event_of, universal_encodes, DialectRouter};
use crate::engine::mti_0430;
use crate::numeric::zero_padded;
use crate::text::{ascii_chars, bytes_end_with, bytes_to_vec};

verus! {

/// An animation pulse: a transaction's position on the simulator's map.
#[allow(non_snake_case)]
#[derive(Debug, Clone)]
pub struct Pulse {
    pub id: String,
    pub phase: String,
    pub currentNode: String,
}

/// A finished simulated transaction, as the dashboard lists it.
#[allow(non_snake_case)]
#[derive(Debug, Clone)]
pub struct HistoryRecord {
    pub id: String,
    pub timestamp: String,
    /// The scenario: `Happy Path`, `Timeout` or `Decline`.
    pub kind: String,
    pub status: String,
    pub amount: String,
    pub totalDurationMs: u64,
    pub rawIsoHex: String,
    pub responseCode: String,
}

/// The simulator's counters.
#[derive(Debug, Clone, Copy)]
pub struct StatusCounters {
    pub running: bool,
    pub total_target: usize,
    pub generated: usize,
    pub in_flight: usize,
    pub completed: usize,
    pub success: usize,
    pub timeout: usize,
    pub decline: usize,
    pub tps: usize,
    pub avg_latency_ms: usize,
    pub elapsed_ms: usize,
}

impl Default for StatusCounters {
    /// Stopped, with every counter at zero.
    fn default() -> (r: Self)
        ensures
            !r.running && r.total_target == 0 && r.generated == 0 && r.in_flight == 0 && r.completed == 0
                && r.success == 0 && r.timeout == 0 && r.decline == 0 && r.tps == 0 && r.avg_latency_ms == 0
                && r.elapsed_ms == 0,
    {
        StatusCounters {
            running: false,
            total_target: 0,
            generated: 0,
            in_flight: 0,
            completed: 0,
            success: 0,
            timeout: 0,
            decline: 0,
            tps: 0,
            avg_latency_ms: 0,
            elapsed_ms: 0,
        }
    }
}

/// How a simulated transaction ended.
#[derive(Debug, Clone, Copy, PartialEq, Eq, Structural)]
pub enum SimStatus {
    Success,
    Timeout,
    Decline,
}

/// How a simulated transaction ended: approved (`00`) is a success; `68`,
/// or an answer that took five seconds or more, is a timeout; anything else
/// is a decline.
pub open spec fn status_of(response_code: Seq<char>, duration_ms: u64) -> SimStatus {
    if response_code == "00"@ {
        SimStatus::Success
    } else if response_code == "68"@ || duration_ms >= 5000 {
        SimStatus::Timeout
    } else {
        SimStatus::Decline
    }
}

/// How a simulated transaction ended.
pub fn sim_status(response_code: &str, duration_ms: u64) -> (r: SimStatus)
    ensures
        r == status_of(response_code@, duration_ms),
{
    proof {
        reveal_strlit("00");
        reveal_strlit("68");
        crate::text::lemma_decode_encoded(response_code@);
        crate::text::lemma_ascii_utf8(seq![48u8, 48u8]);
        crate::text::lemma_ascii_utf8(seq![54u8, 56u8]);
        assert(crate::text::ascii_chars(seq![48u8, 48u8]) =~= "00"@);
        assert(crate::text::ascii_chars(seq![54u8, 56u8]) =~= "68"@);
    }
    if crate::text::bytes_equal(response_code.as_bytes(), &[48u8, 48u8]) {
        SimStatus::Success
    } else if crate::text::bytes_equal(response_code.as_bytes(), &[54u8, 56u8]) || duration_ms >= 5000 {
        SimStatus::Timeout
    } else {
        SimStatus::Decline
    }
}

impl SimStatus {
    /// The status as the dashboard shows it.
    pub fn as_text(&self) -> (r: &'static str)
        ensures
            r@ == (match *self {
                SimStatus::Success => "success"@,
                SimStatus::Timeout => "timeout"@,
                SimStatus::Decline => "decline"@,
            }),
    {
        match self {
            SimStatus::Success => "success",
            SimStatus::Timeout => "timeout",
            SimStatus::Decline => "decline",
        }
    }
}

/// `n + 1`, wrapping to zero past the largest `usize`.
pub open spec fn bumped(n: usize) -> usize {
    if n == usize::MAX {
        0
    } else {
        (n + 1) as usize
    }
}

/// The counters after a transaction finished with `status`, the latencies of
/// all finished transactions now summing to `latency_sum`: it leaves the
/// in-flight count, joins the completed count and its status's count, and
/// the average latency becomes the sum over the completed count. The
/// counters wrap as the atomic counters they stand for do.
pub open spec fn recorded_counters(s: StatusCounters, status: SimStatus, latency_sum: usize) -> StatusCounters {
    StatusCounters {
        in_flight: (if s.in_flight == 0 { usize::MAX } else { (s.in_flight - 1) as usize }),
        completed: (s.completed + 1) as usize,
        success: (if status == SimStatus::Success { bumped(s.success) } else { s.success }),
        timeout: (if status == SimStatus::Timeout { bumped(s.timeout) } else { s.timeout }),
        decline: (if status == SimStatus::Decline { bumped(s.decline) } else { s.decline }),
        avg_latency_ms: (latency_sum as int / (s.completed + 1)) as usize,
        ..s
    }
}

/// Whether a worker may send another transaction: the run is on and has
/// not reached its target.
pub open spec fn may_claim(s: StatusCounters) -> bool {
    s.running && s.generated < s.total_target
}

/// The counters after a worker claims a transaction to send: one more
/// generated and one more in flight (wrapping as the atomic counter does).
pub open spec fn claimed_counters(s: StatusCounters) -> StatusCounters {
    StatusCounters {
        generated: (s.generated + 1) as usize,
        in_flight: bumped(s.in_flight),
        ..s
    }
}

/// The counters after a claimed transaction could not be sent: it leaves
/// the in-flight count.
pub open spec fn abandoned_counters(s: StatusCounters) -> StatusCounters {
    StatusCounters { in_flight: (if s.in_flight == 0 { usize::MAX } else { (s.in_flight - 1) as usize }), ..s }
}

impl StatusCounters {
    /// A transaction finished with `status`, and the latencies of all
    /// finished transactions now sum to `latency_sum`.
    pub fn record(&mut self, status: SimStatus, latency_sum: usize)
        requires
            old(self).completed < usize::MAX,
        ensures
            *final(self) == recorded_counters(*old(self), status, latency_sum),
    {
        self.in_flight = self.in_flight.wrapping_sub(1);
        self.completed = self.completed + 1;
        match status {
            SimStatus::Success => {
                self.success = self.success.wrapping_add(1);
            },
            SimStatus::Timeout => {
                self.timeout = self.timeout.wrapping_add(1);
            },
            SimStatus::Decline => {
                self.decline = self.decline.wrapping_add(1);
            },
        }
        self.avg_latency_ms = latency_sum / self.completed;
    }

    /// A worker asks to send another transaction: granted, and counted as
    /// generated and in flight, while the run is on and short of its
    /// target; refused, with nothing changed, otherwise.
    pub fn claim(&mut self) -> (granted: bool)
        ensures
            granted == may_claim(*old(self)),
            *final(self) == (if granted { claimed_counters(*old(self)) } else { *old(self) }),
    {
        if !self.running || self.generated >= self.total_target {
            return false;
        }
        self.generated = self.generated + 1;
        self.in_flight = self.in_flight.wrapping_add(1);
        true
    }

    /// A claimed transaction could not be sent.
    pub fn abandon(&mut self)
        ensures
            *final(self) == abandoned_counters(*old(self)),
    {
        self.in_flight = self.in_flight.wrapping_sub(1);
    }
}

/// A run never generates more than its target: claiming keeps the generated
/// count within it.
pub proof fn law_claims_within_target(s: StatusCounters)
    requires
        s.generated <= s.total_target,
    ensures
        (if may_claim(s) { claimed_counters(s) } else { s }).generated <= s.total_target,
        may_claim(s) ==> claimed_counters(s).generated == s.generated + 1,
{
}

/// Each claimed transaction leaves the in-flight count again when it is
/// recorded or abandoned: a claim followed by either brings the count back
/// to where it was (as long as it does not wrap), so a run whose every
/// claim has finished ends with nothing in flight.
pub proof fn law_in_flight_returns(s: StatusCounters, status: SimStatus, latency_sum: usize)
    requires
        may_claim(s),
        s.in_flight < usize::MAX,
    ensures
        recorded_counters(claimed_counters(s), status, latency_sum).in_flight == s.in_flight,
        abandoned_counters(claimed_counters(s)).in_flight == s.in_flight,
        recorded_counters(claimed_counters(s), status, latency_sum).generated == s.generated + 1,
{
}

/// Every finished transaction is counted once under its status: recording
/// keeps the completed count equal to the successes, timeouts and declines
/// together, as long as no counter wraps.
pub proof fn law_completed_is_sum_of_outcomes(s: StatusCounters, status: SimStatus, latency_sum: usize)
    requires
        s.completed == s.success + s.timeout + s.decline,
        s.completed < usize::MAX,
    ensures
        recorded_counters(s, status, latency_sum).completed == recorded_counters(s, status, latency_sum).success
            + recorded_counters(s, status, latency_sum).timeout + recorded_counters(s, status, latency_sum).decline,
{
}

/// A run's size and parallelism: 100 transactions and 10 workers unless
/// given, and at least one of each.
pub fn sim_plan(volume: Option<usize>, concurrency: Option<usize>) -> (r: (usize, usize))
    ensures
        r.0 == (match volume {
            Some(v) => if v < 1 { 1 } else { v },
            None => 100,
        }),
        r.1 == (match concurrency {
            Some(c) => if c < 1 { 1 } else { c },
            None => 10,
        }),
{
    let v = match volume {
        Some(v) => v,
        None => 100,
    };
    let c = match concurrency {
        Some(c) => c,
        None => 10,
    };
    (if v < 1 { 1 } else { v }, if c < 1 { 1 } else { c })
}

impl StatusCounters {
    /// A new run of `volume` transactions starts: running, with that target
    /// and every counter back at zero.
    pub fn start(&mut self, volume: usize)
        ensures
            final(self).running && final(self).total_target == volume && final(self).generated == 0
                && final(self).in_flight == 0 && final(self).completed == 0 && final(self).success == 0
                && final(self).timeout == 0 && final(self).decline == 0 && final(self).tps == 0
                && final(self).avg_latency_ms == 0,
            final(self).elapsed_ms == old(self).elapsed_ms,
    {
        self.running = true;
        self.total_target = volume;
        self.generated = 0;
        self.in_flight = 0;
        self.completed = 0;
        self.success = 0;
        self.timeout = 0;
        self.decline = 0;
        self.tps = 0;
        self.avg_latency_ms = 0;
    }
}

/// A completion older than five seconds at `now` (milliseconds).
pub open spec fn expired(t: u64, now: u64) -> bool {
    now >= t && now - t > 5000
}

/// The completion times still inside the five-second window: the oldest are
/// dropped while they have expired.
pub open spec fn pruned(times: Seq<u64>, now: u64) -> Seq<u64>
    decreases times.len(),
{
    if times.len() > 0 && expired(times[0], now) {
        pruned(times.drop_first(), now)
    } else {
        times
    }
}

/// Drops the completions that left the five-second window and gives the
/// throughput: completions in the window per second.
pub fn prune_completions(times: &mut Vec<u64>, now: u64) -> (tps: usize)
    ensures
        final(times)@ == pruned(old(times)@, now),
        tps == final(times)@.len() / 5,
{
    let mut k: usize = 0;
    assert(times@.subrange(0, times@.len() as int) =~= times@);
    while k < times.len() && now >= times[k] && now - times[k] > 5000
        invariant
            k <= times@.len(),
            times@ == old(times)@,
            pruned(times@, now) == pruned(times@.subrange(k as int, times@.len() as int), now),
        decreases times@.len() - k,
    {
        let ghost rest = times@.subrange(k as int, times@.len() as int);
        assert(rest.drop_first() =~= times@.subrange(k + 1, times@.len() as int));
        k = k + 1;
    }
    let ghost rest = times@.subrange(k as int, times@.len() as int);
    assert(pruned(rest, now) == rest);
    let kept = times.split_off(k);
    *times = kept;
    assert(times@ =~= rest);
    tps_of(times.len())
}

fn tps_of(n: usize) -> (r: usize)
    ensures
        r == n / 5,
{
    n / 5
}

/// The dashboard's history after `rec` finishes: `rec` first, and the
/// oldest record dropped once there are more than 100.
pub open spec fn recorded(h: Seq<HistoryRecord>, rec: HistoryRecord) -> Seq<HistoryRecord> {
    let n = seq![rec] + h;
    if n.len() > 100 {
        n.drop_last()
    } else {
        n
    }
}

/// Puts a finished transaction at the head of the history, keeping at most
/// 100 records.
pub fn record_history(history: &mut Vec<HistoryRecord>, rec: HistoryRecord)
    ensures
        final(history)@ == recorded(old(history)@, rec),
{
    history.insert(0, rec);
    if history.len() > 100 {
        history.pop();
    }
}

/// The history never holds more than 100 records, and the newest is first.
pub proof fn law_history_bounded(h: Seq<HistoryRecord>, rec: HistoryRecord)
    requires
        h.len() <= 100,
    ensures
        recorded(h, rec).len() <= 100,
        recorded(h, rec)[0] == rec,
        forall|i: int| 0 <= i < recorded(h, rec).len() - 1 ==> #[trigger] recorded(h, rec)[i + 1] == h[i],
{
}

/// The amounts a simulated profile draws from: a `Decline` profile draws
/// from 50001 up to (not including) 999999, to be declined for funds; any
/// other from 100 up to 49999.
pub fn sim_amount_range(decline: bool) -> (r: (u64, u64))
    ensures
        r == (if decline { (50001u64, 999999u64) } else { (100u64, 49999u64) }),
{
    if decline {
        (50001, 999999)
    } else {
        (100, 49999)
    }
}

/// The STAN of the simulator's `counter`-th transaction: six digits, the
/// counter wrapping at 999999.
pub open spec fn sim_stan(counter: u64) -> Seq<char> {
    ascii_chars(zero_padded((counter % 999999) as nat, 6))
}

/// A simulated purchase: a `0200` financial request on the test card, with
/// the given RRN, STAN counter, local time and date, and amount.
pub open spec fn sim_event(rrn: Seq<char>, counter: u64, local_time: Seq<char>, local_date: Seq<char>, amount: u64) -> EventView {
    EventView {
        processing_code: "000000"@,
        fpan: "4111111111111111"@.map_values(|c: char| c as u8),
        amount: amount,
        stan: sim_stan(counter),
        local_time: local_time,
        local_date: local_date,
        rrn: rrn,
        acquirer_id: "123456"@.map_values(|c: char| c as u8),
        pin_block: "1234567890ABCDEF"@.map_values(|c: char| c as u8),
        ..blank_event(seq![48u8, 50u8, 48u8, 48u8], MessageClass::Financial)
    }
}

/// Builds a simulated purchase.
pub fn sim_transaction(rrn: String, counter: u64, local_time: String, local_date: String, amount: u64) -> (r: UniversalPaymentEvent)
    ensures
        r@ == sim_event(rrn@, counter, local_time@, local_date@, amount),
{
    proof {
        reveal_strlit("4111111111111111");
        reveal_strlit("123456");
        reveal_strlit("1234567890ABCDEF");
    }
    let digits = crate::numeric::zero_padded_text(counter % 999999, 6);
    proof {
        let n = (counter % 999999) as nat;
        crate::numeric::lemma_zero_padded_parses(n, 6);
        assert(crate::text::all_ascii(digits@)) by {
            assert forall|i: int| 0 <= i < digits@.len() implies #[trigger] digits@[i] < 128 by {
                assert(crate::numeric::is_digit(digits@[i]));
            }
        }
    }
    let mut tx = blank_event_of(bytes_to_vec(&[48u8, 50u8, 48u8, 48u8]), MessageClass::Financial);
    tx.processing_code = ProcessingCode(String::from_str("000000"));
    tx.fpan = bytes_to_vec(&[52u8, 49u8, 49u8, 49u8, 49u8, 49u8, 49u8, 49u8, 49u8, 49u8, 49u8, 49u8, 49u8, 49u8, 49u8, 49u8]);
    tx.amount = amount;
    tx.stan = Stan(crate::text::ascii_text(digits.as_slice()));
    tx.local_time = LocalTime(local_time);
    tx.local_date = LocalDate(local_date);
    tx.rrn = Rrn(rrn);
    tx.acquirer_id = bytes_to_vec(&[49u8, 50u8, 51u8, 52u8, 53u8, 54u8]);
    tx.pin_block = bytes_to_vec(&[49u8, 50u8, 51u8, 52u8, 53u8, 54u8, 55u8, 56u8, 57u8, 48u8, 65u8, 66u8, 67u8, 68u8, 69u8, 70u8]);
    assert(tx@ =~= sim_event(rrn@, counter, local_time@, local_date@, amount));
    tx
}

/// The mock bank's answer: a network management request is echoed `0810`
/// `00`; a reversal advice is acknowledged `0430` `00`; an authorization is
/// answered `0110` and a financial request `0210`, declined `51` for an
/// amount over 50000, `59` for a PAN ending in `9999`, and approved `00`
/// otherwise; anything else gets no answer.
pub open spec fn bank_response(e: EventView) -> Option<EventView> {
    if e.message_class == MessageClass::NetworkManagement {
        Some(
            EventView {
                mti: crate::engine::mti_0810(),
                response_code: "00"@,
                message_class: MessageClass::NetworkManagementResponse,
                ..e
            },
        )
    } else if e.message_class == MessageClass::ReversalAdvice {
        Some(EventView { mti: mti_0430(), response_code: "00"@, message_class: MessageClass::ReversalResponse, ..e })
    } else if e.message_class == MessageClass::Authorization || e.message_class == MessageClass::Financial {
        let mti = if e.message_class == MessageClass::Authorization {
            crate::engine::mti_0110()
        } else {
            seq![48u8, 50u8, 49u8, 48u8]
        };
        let rc = if e.amount > 50000 {
            "51"@
        } else if e.fpan.len() >= 4 && e.fpan.subrange(e.fpan.len() - 4, e.fpan.len() as int) == seq![
            57u8,
            57u8,
            57u8,
            57u8,
        ] {
            "59"@
        } else {
            "00"@
        };
        Some(EventView { mti: mti, response_code: rc, ..e })
    } else {
        None
    }
}

/// The mock bank's answer to a request, encoded in the link's dialect.
pub fn process_bank_rules(tx: &UniversalPaymentEvent, dialect: &DialectRouter) -> (r: Option<Vec<u8>>)
    ensures
        match bank_response(tx@) {
            None => r is None,
            Some(resp) => r matches Some(raw) && universal_encodes(resp, raw@),
        },
{
    let mut response = tx.duplicate();
    match tx.message_class {
        MessageClass::NetworkManagement => {
            response.mti = bytes_to_vec(&[48u8, 56u8, 49u8, 48u8]);
            response.response_code = ResponseCode(String::from_str("00"));
            response.message_class = MessageClass::NetworkManagementResponse;
        },
        MessageClass::ReversalAdvice => {
            response.mti = bytes_to_vec(&[48u8, 52u8, 51u8, 48u8]);
            response.response_code = ResponseCode(String::from_str("00"));
            response.message_class = MessageClass::ReversalResponse;
        },
        MessageClass::Authorization | MessageClass::Financial => {
            let is_auth = match tx.message_class {
                MessageClass::Authorization => true,
                _ => false,
            };
            if is_auth {
                response.mti = bytes_to_vec(&[48u8, 49u8, 49u8, 48u8]);
            } else {
                response.mti = bytes_to_vec(&[48u8, 50u8, 49u8, 48u8]);
            }
            if tx.amount > 50000 {
                response.response_code = ResponseCode(String::from_str("51"));
            } else if bytes_end_with(tx.fpan.as_slice(), &[57u8, 57u8, 57u8, 57u8]) {
                response.response_code = ResponseCode(String::from_str("59"));
            } else {
                response.response_code = ResponseCode(String::from_str("00"));
            }
        },
        _ => {
            return None;
        },
    }
    assert(bank_response(tx@) matches Some(resp) && resp =~= response@);
    match dialect.encode(&response) {
        Ok(raw) => Some(raw),
        Err(_) => None,
    }
}

/// The lowercase hexadecimal digit of a nibble.
pub open spec fn hex_digit(n: u8) -> u8 {
    if n < 10 {
        (48 + n) as u8
    } else {
        (87 + n) as u8
    }
}

/// `b` in lowercase hexadecimal, two digits a byte.
pub open spec fn hex_of(b: Seq<u8>) -> Seq<u8>
    decreases b.len(),
{
    if b.len() == 0 {
        Seq::empty()
    } else {
        hex_of(b.drop_last()) + seq![hex_digit(b.last() / 16), hex_digit(b.last() % 16)]
    }
}

/// `b` in lowercase hexadecimal.
pub fn hex_lower(b: &[u8]) -> (r: String)
    ensures
        r@ == ascii_chars(hex_of(b@)),
{
    let mut out: Vec<u8> = Vec::new();
    let mut i: usize = 0;
    while i < b.len()
        invariant
            i <= b@.len(),
            out@ == hex_of(b@.subrange(0, i as int)),
            crate::text::all_ascii(out@),
        decreases b@.len() - i,
    {
        let x = b[i];
        let hi = x / 16;
        let lo = x % 16;
        let dh = if hi < 10 { 48 + hi } else { 87 + hi };
        let dl = if lo < 10 { 48 + lo } else { 87 + lo };
        let ghost before = out@;
        out.push(dh);
        out.push(dl);
        proof {
            assert(b@.subrange(0, i + 1).drop_last() =~= b@.subrange(0, i as int));
            assert(out@ =~= before + seq![hex_digit(x / 16), hex_digit(x % 16)]);
            assert forall|k: int| 0 <= k < out@.len() implies #[trigger] out@[k] < 128 by {
                if k < before.len() {
                    assert(out@[k] == before[k]);
                }
            }
        }
        i = i + 1;
    }
    assert(b@.subrange(0, b@.len() as int) =~= b@);
    crate::text::ascii_text(out.as_slice())
}

} // verus!
