//! The switching decisions of the ingress pipeline: risk pre-screening,
//! declines and echo replies, reversal acknowledgement, egress selection with
//! fail-over, egress STAN assignment, stand-in processing when the bank
//! cannot be reached, and the HSM verdict.
use vstd::prelude::*;
use vstd::string::StringExecFns;
use vstd::utf8::{decode_utf8, encode_utf8, is_char_boundary};
use crate::canonical::{EventView, MessageClass, ProcessingCode, ResponseCode, UniversalPaymentEvent};
use crate::guard::{ActiveTransaction, IdempotencyGuard, NatTable};
use crate::tables::{no_text, text_map, text_map_contains, text_map_insert, text_map_new};
use dashmap::DashMap;
use crate::numeric::{zero_padded, zero_padded_text};
use crate::routing::{Route, RouteDestination};
use crate::state::{CardProfile, StipEngine};
use crate::text::{ascii_chars, ascii_text, bytes_start_with, bytes_to_vec, decode_lossy, string_bytes, to_text};

verus! {

/// `b` begins with the byte `c`.
pub open spec fn starts_with_byte(b: Seq<u8>, c: u8) -> bool {
    b.len() > 0 && b[0] == c
}

/// The card network a PAN belongs to: `VISA` for a leading `4`,
/// `MASTERCARD` for a leading `5`, `DEFAULT` otherwise.
pub open spec fn network_name(fpan: Seq<u8>) -> Seq<char> {
    if starts_with_byte(fpan, 52u8) {
        "VISA"@
    } else if starts_with_byte(fpan, 53u8) {
        "MASTERCARD"@
    } else {
        "DEFAULT"@
    }
}

/// The card network a PAN belongs to.
pub fn network_of_pan(fpan: &[u8]) -> (r: String)
    ensures
        r@ == network_name(fpan@),
{
    if fpan.len() > 0 && fpan[0] == 52u8 {
        String::from_str("VISA")
    } else if fpan.len() > 0 && fpan[0] == 53u8 {
        String::from_str("MASTERCARD")
    } else {
        String::from_str("DEFAULT")
    }
}

/// The highest risk score let through for a network: its rule's threshold,
/// or 100 (screening off) when it has no rule.
pub open spec fn threshold_of(rules: Map<Seq<char>, crate::state::StipRuleView>, network: Seq<char>) -> u8 {
    if rules.contains_key(network) {
        rules[network].max_risk_score
    } else {
        100
    }
}

/// The highest risk score let through for a network.
pub fn risk_threshold(rules: &StipEngine, network: &str) -> (r: u8)
    ensures
        r == threshold_of(rules@, network@),
{
    match rules.get(network) {
        Some(rule) => rule.max_risk_score,
        None => crate::state::default_max_risk_score(),
    }
}

/// A transaction is declined as suspected fraud when it carries a risk score
/// above its network's threshold.
pub open spec fn risk_declined(e: EventView, rules: Map<Seq<char>, crate::state::StipRuleView>) -> bool {
    e.risk_score > 0 && e.risk_score > threshold_of(rules, network_name(e.fpan))
}

/// Whether the risk pre-screen declines `tx`.
pub fn risk_declines(tx: &UniversalPaymentEvent, rules: &StipEngine) -> (r: bool)
    ensures
        r == risk_declined(tx@, rules@),
{
    if tx.risk_score == 0 {
        return false;
    }
    let network = network_of_pan(tx.fpan.as_slice());
    tx.risk_score > risk_threshold(rules, network.as_str())
}

/// The bytes `0110`, `0810` and `0430`.
pub open spec fn mti_0110() -> Seq<u8> {
    seq![48u8, 49u8, 49u8, 48u8]
}

pub open spec fn mti_0810() -> Seq<u8> {
    seq![48u8, 56u8, 49u8, 48u8]
}

pub open spec fn mti_0430() -> Seq<u8> {
    seq![48u8, 52u8, 51u8, 48u8]
}

/// `e` answered with MTI `0110` and `code`.
pub open spec fn declined(e: EventView, code: Seq<char>) -> EventView {
    EventView { mti: mti_0110(), response_code: code, ..e }
}

/// `tx` answered with MTI `0110` and `response_code`.
pub fn decline(tx: &UniversalPaymentEvent, response_code: &str) -> (r: UniversalPaymentEvent)
    ensures
        r@ == declined(tx@, response_code@),
{
    let mut r = tx.duplicate();
    r.mti = bytes_to_vec(&[48u8, 49u8, 49u8, 48u8]);
    r.response_code = ResponseCode(String::from_str(response_code));
    assert(r@ =~= (EventView { mti: mti_0110(), response_code: response_code@, ..tx@ }));
    r
}

/// A network management message the switch answers itself: one whose PAN
/// belongs to no card network (it begins with neither `4` nor `5`).
pub open spec fn answered_by_switch(e: EventView) -> bool {
    e.message_class == MessageClass::NetworkManagement && !starts_with_byte(e.fpan, 52u8) && !starts_with_byte(
        e.fpan,
        53u8,
    )
}

/// Whether the switch answers `tx` itself with an echo.
pub fn is_switch_echo(tx: &UniversalPaymentEvent) -> (r: bool)
    ensures
        r == answered_by_switch(tx@),
{
    let is_mgmt = match tx.message_class {
        MessageClass::NetworkManagement => true,
        _ => false,
    };
    is_mgmt && !(tx.fpan.len() > 0 && tx.fpan[0] == 52u8) && !(tx.fpan.len() > 0 && tx.fpan[0] == 53u8)
}

/// The echo of a network management message: MTI `0810`, response code `00`.
pub open spec fn echoed(e: EventView) -> EventView {
    EventView { mti: mti_0810(), response_code: "00"@, message_class: MessageClass::NetworkManagementResponse, ..e }
}

/// The echo reply to a network management message.
pub fn echo_reply(tx: &UniversalPaymentEvent) -> (r: UniversalPaymentEvent)
    ensures
        r@ == echoed(tx@),
{
    let mut r = tx.duplicate();
    r.mti = bytes_to_vec(&[48u8, 56u8, 49u8, 48u8]);
    r.response_code = ResponseCode(String::from_str("00"));
    r.message_class = MessageClass::NetworkManagementResponse;
    assert(r@ =~= (EventView {
        mti: mti_0810(),
        response_code: "00"@,
        message_class: MessageClass::NetworkManagementResponse,
        ..tx@
    }));
    r
}

/// The acknowledgement of a reversal: MTI `0430`, response code `00`.
pub open spec fn acknowledged(e: EventView) -> EventView {
    EventView { mti: mti_0430(), response_code: "00"@, ..e }
}

/// The acknowledgement of a reversal.
pub fn reversal_ack(tx: &UniversalPaymentEvent) -> (r: UniversalPaymentEvent)
    ensures
        r@ == acknowledged(tx@),
{
    let mut r = tx.duplicate();
    r.mti = bytes_to_vec(&[48u8, 52u8, 51u8, 48u8]);
    r.response_code = ResponseCode(String::from_str("00"));
    assert(r@ =~= (EventView { mti: mti_0430(), response_code: "00"@, ..tx@ }));
    r
}

/// The original data elements can be sliced for the original STAN: they are
/// shorter than 20 bytes, or bytes 4 and 10 fall on character boundaries.
pub open spec fn original_stan_sliceable(odata: Seq<char>) -> bool {
    encode_utf8(odata).len() < 20 || (is_char_boundary(encode_utf8(odata), 4) && is_char_boundary(encode_utf8(odata), 10))
}

/// The STAN of the original transaction that a reversal's original data
/// elements name: bytes 4 to 10, when the elements have at least 20 bytes.
pub open spec fn original_stan_of(odata: Seq<char>) -> Option<Seq<char>> {
    if encode_utf8(odata).len() >= 20 {
        Some(decode_utf8(encode_utf8(odata).subrange(4, 10)))
    } else {
        None
    }
}

/// Whether the original data elements can be sliced for the original STAN.
pub fn original_stan_ok(odata: &str) -> (r: bool)
    ensures
        r == original_stan_sliceable(odata@),
{
    odata.as_bytes().len() < 20 || (odata.is_char_boundary(4) && odata.is_char_boundary(10))
}

/// The STAN of the original transaction that a reversal names.
pub fn original_stan(odata: &str) -> (r: Option<String>)
    requires
        original_stan_sliceable(odata@),
    ensures
        opt_text(r) == original_stan_of(odata@),
{
    if odata.as_bytes().len() < 20 {
        return None;
    }
    let (_head, tail) = odata.split_at(4);
    proof {
        vstd::utf8::encode_utf8_valid_utf8(odata@);
        vstd::utf8::encode_utf8_valid_utf8(tail@);
        let b = encode_utf8(odata@);
        assert(encode_utf8(tail@) =~= b.subrange(4, b.len() as int));
        assert(is_char_boundary(encode_utf8(tail@), 6)) by {
            vstd::utf8::is_char_boundary_iff_not_is_continuation_byte(b, 10);
            vstd::utf8::is_char_boundary_iff_not_is_continuation_byte(encode_utf8(tail@), 6);
            assert(encode_utf8(tail@)[6] == b[10]);
        }
    }
    let (stan, _rest) = tail.split_at(6);
    proof {
        let b = encode_utf8(odata@);
        assert(encode_utf8(stan@) =~= b.subrange(4, 10));
        vstd::utf8::encode_utf8_decode_utf8(stan@);
    }
    Some(stan.to_owned())
}

/// A transaction goes through the HSM when it carries a PIN block or a MAC.
pub open spec fn needs_hsm_spec(e: EventView) -> bool {
    e.pin_block.len() > 0 || e.mac_data is Some
}

/// Whether `tx` goes through the HSM first.
pub fn needs_hsm(tx: &UniversalPaymentEvent) -> (r: bool)
    ensures
        r == needs_hsm_spec(tx@),
{
    tx.pin_block.len() > 0 || tx.mac_data.is_some()
}

/// The egress channel the card database is reached by.
pub open spec fn crdb_channel() -> Seq<char> {
    "CRDB_DOMAIN_2"@
}

/// The node a route sends to, given whether its node and its fail-over node
/// are online (`None`: health not yet probed, taken as online).  A node
/// that is down is replaced by the fail-over node; `None` when the node
/// chosen is down.
pub open spec fn external_target(node: Seq<char>, failover: Option<Seq<char>>, primary_online: Option<bool>, failover_online: Option<bool>) -> Option<
    Seq<char>,
> {
    let up = match primary_online {
        Some(b) => b,
        None => true,
    };
    if up {
        Some(node)
    } else {
        match failover {
            Some(f) => if (match failover_online {
                Some(b) => b,
                None => true,
            }) {
                Some(f)
            } else {
                None
            },
            None => None,
        }
    }
}

/// An optional string's characters.
pub open spec fn opt_text(o: Option<String>) -> Option<Seq<char>> {
    match o {
        Some(s) => Some(s@),
        None => None,
    }
}

/// The egress channel a transaction of class `class` is sent on: the card
/// database for an internal route, the route's node (or its fail-over) for
/// an external one; `None` for classes that are not routed, for a PAN
/// without a route, or when the chosen node is down.
pub open spec fn egress_choice(
    class: MessageClass,
    route: Option<Route>,
    primary_online: Option<bool>,
    failover_online: Option<bool>,
) -> Option<Seq<char>> {
    if class == MessageClass::Authorization || class == MessageClass::Financial || class
        == MessageClass::ReversalAdvice || class == MessageClass::NetworkManagement {
        match route {
            Some(r) => match r.destination {
                RouteDestination::InternalCrdb => Some(crdb_channel()),
                RouteDestination::ExternalNode(n) => external_target(
                    n@,
                    opt_text(r.failover_node),
                    primary_online,
                    failover_online,
                ),
            },
            None => None,
        }
    } else {
        None
    }
}

/// The node an external route sends to.
fn pick_node(node: &String, failover: &Option<String>, primary_online: Option<bool>, failover_online: Option<bool>) -> (r: Option<String>)
    ensures
        opt_text(r) == external_target(node@, opt_text(*failover), primary_online, failover_online),
{
    let up = match primary_online {
        Some(b) => b,
        None => true,
    };
    if up {
        return Some(node.clone());
    }
    match failover {
        Some(f) => {
            let f_up = match failover_online {
                Some(b) => b,
                None => true,
            };
            if f_up {
                Some(f.clone())
            } else {
                None
            }
        },
        None => None,
    }
}

/// The egress channel a transaction is sent on.
pub fn select_egress(
    class: MessageClass,
    route: Option<&Route>,
    primary_online: Option<bool>,
    failover_online: Option<bool>,
) -> (r: Option<String>)
    ensures
        opt_text(r) == egress_choice(class, crate::routing::route_of(route), primary_online, failover_online),
{
    let routed = match class {
        MessageClass::Authorization => true,
        MessageClass::Financial => true,
        MessageClass::ReversalAdvice => true,
        MessageClass::NetworkManagement => true,
        _ => false,
    };
    if !routed {
        return None;
    }
    match route {
        Some(r) => match &r.destination {
            RouteDestination::InternalCrdb => Some(String::from_str("CRDB_DOMAIN_2")),
            RouteDestination::ExternalNode(n) => pick_node(n, &r.failover_node, primary_online, failover_online),
        },
        None => None,
    }
}

/// The node a `0420` reversal is sent to: the route's external node.
pub fn reversal_target(route: Option<&Route>) -> (r: Option<String>)
    ensures
        opt_text(r) == (match crate::routing::route_of(route) {
            Some(rt) => match rt.destination {
                RouteDestination::ExternalNode(n) => Some(n@),
                RouteDestination::InternalCrdb => None,
            },
            None => None,
        }),
{
    match route {
        Some(r) => match &r.destination {
            RouteDestination::ExternalNode(n) => Some(n.clone()),
            RouteDestination::InternalCrdb => None,
        },
        None => None,
    }
}

/// The egress STAN drawn from counter value `counter`: six digits, the
/// counter wrapping at a million.
pub open spec fn egress_stan_of(counter: u64) -> Seq<char> {
    ascii_chars(zero_padded((counter % 1_000_000) as nat, 6))
}

/// The six-digit egress STAN for counter value `counter`.
pub fn egress_stan_text(counter: u64) -> (r: String)
    ensures
        r@ == egress_stan_of(counter),
        r@.len() == 6,
{
    let digits = zero_padded_text(counter % 1_000_000, 6);
    proof {
        let n = (counter % 1_000_000) as nat;
        reveal_with_fuel(crate::numeric::pow10, 7);
        crate::numeric::lemma_zero_padded_parses(n, 6);
        crate::numeric::lemma_decimal_digits_len(n, 6, 1_000_000);
        assert(crate::text::all_ascii(digits@)) by {
            assert forall|i: int| 0 <= i < digits@.len() implies #[trigger] digits@[i] < 128 by {
                assert(crate::numeric::is_digit(digits@[i]));
            }
        }
    }
    ascii_text(digits.as_slice())
}

/// Forwarding upstream: `tx` gets the egress STAN drawn from `counter`, the
/// translation table records that STAN for the acquirer's, and the STAN is
/// handed back for the guard entry.
pub fn assign_egress_stan(tx: &mut UniversalPaymentEvent, table: &mut NatTable, counter: u64) -> (stan: String)
    ensures
        stan@ == egress_stan_of(counter),
        final(table)@ == old(table)@.insert(egress_stan_of(counter), old(tx)@.stan),
        final(tx)@ == (EventView { stan: egress_stan_of(counter), ..old(tx)@ }),
{
    let stan = egress_stan_text(counter);
    let ingress = tx.stan.0.clone();
    table.insert(stan.clone(), ingress);
    tx.stan = crate::canonical::Stan(stan.clone());
    stan
}

/// A reaper pass with the start-up routes in place: every transaction that
/// timed out gets exactly one action, whose reply is `0110` with `68` and
/// whose `0420` reversal goes to the Visa node when the card number begins
/// with `4`.
pub proof fn law_timed_out_visa_card_reversed_to_visa(
    m: Map<Seq<char>, ActiveTransaction>,
    now: u64,
    timeout: u64,
    acts: Seq<crate::guard::ReaperAction>,
    routes: Map<Seq<u8>, Route>,
    k: Seq<char>,
)
    requires
        crate::guard::reaped(m, now, timeout, acts),
        crate::routing::is_startup_table(routes),
        m.contains_key(k),
        crate::guard::timed_out(m[k], now, timeout),
        encode_utf8(m[k].transaction_data@.pan).len() > 0,
        encode_utf8(m[k].transaction_data@.pan)[0] == 52u8,
    ensures
        exists|i: int|
            0 <= i < acts.len() && #[trigger] acts[i].key@ == k && acts[i].timeout_reply@.mti == "0110"@
                && acts[i].timeout_reply@.response_code == "68"@ && acts[i].reversal@.mti == "0420"@
                && crate::routing::routes_to_node(
                crate::routing::longest_match(routes, encode_utf8(acts[i].reversal@.pan))->0,
                "MockVisaNode"@,
            ),
{
    let i = choose|i: int| 0 <= i < acts.len() && #[trigger] acts[i].key@ == k;
    assert(crate::guard::acts_on(m, now, timeout, acts[i]));
    let pan = encode_utf8(acts[i].reversal@.pan);
    assert(pan == encode_utf8(m[k].transaction_data@.pan));
    crate::routing::law_startup_routes_by_network(routes, pan);
}

/// Forwarding upstream with the guard: `tx` takes the egress STAN drawn
/// from `counter`, the translation table records it for the acquirer's
/// STAN, and the transaction in flight under `key`, if any, remembers it.
pub fn forward_upstream(
    tx: &mut UniversalPaymentEvent,
    table: &mut NatTable,
    guard: &mut IdempotencyGuard,
    key: &str,
    counter: u64,
) -> (found: bool)
    ensures
        final(table)@ == old(table)@.insert(egress_stan_of(counter), old(tx)@.stan),
        final(tx)@ == (EventView { stan: egress_stan_of(counter), ..old(tx)@ }),
        found == old(guard)@.contains_key(key@),
        found ==> final(guard)@ == old(guard)@.insert(key@, final(guard)@[key@]),
        found ==> final(guard)@[key@] == (ActiveTransaction { egress_stan: final(guard)@[key@].egress_stan, ..old(guard)@[key@] }),
        found ==> opt_text(final(guard)@[key@].egress_stan) == Some(egress_stan_of(counter)),
        !found ==> final(guard)@ == old(guard)@,
{
    let stan = assign_egress_stan(tx, table, counter);
    guard.set_egress_stan(key, stan)
}

/// The reply stand-in processing gives when the bank cannot be reached, and
/// the card's new standing when it changes.
pub struct StipDecision {
    pub reply: UniversalPaymentEvent,
    pub updated_profile: Option<CardProfile>,
}

/// What stand-in processing decides for a card looked up in the stand-in
/// database (`None`: no entry; `Some(None)`: an entry that does not decode):
/// a blocked card is declined `41`; a balance covering the amount is
/// debited and the transaction approved `00` with processing code
/// `STIP12`; a short balance is declined `51`; without a usable entry the
/// answer is `05`.  The reply always carries MTI `0110`.
pub open spec fn stip_outcome(e: EventView, lookup: Option<Option<CardProfile>>) -> (EventView, Option<CardProfile>) {
    let base = EventView { mti: mti_0110(), ..e };
    match lookup {
        Some(Some(p)) => if p.is_blocked {
            (EventView { response_code: "41"@, ..base }, None)
        } else if p.balance >= e.amount as i64 {
            (
                EventView { response_code: "00"@, processing_code: "STIP12"@, ..base },
                Some(CardProfile { balance: (p.balance - e.amount as i64) as i64, ..p }),
            )
        } else {
            (EventView { response_code: "51"@, ..base }, None)
        },
        _ => (EventView { response_code: "05"@, ..base }, None),
    }
}

/// The debit stand-in processing makes fits in the balance's type.
pub open spec fn stip_debit_fits(e: EventView, lookup: Option<Option<CardProfile>>) -> bool {
    match lookup {
        Some(Some(p)) => !p.is_blocked && p.balance >= e.amount as i64 ==> i64::MIN <= p.balance - e.amount as i64
            <= i64::MAX,
        _ => true,
    }
}

/// Stand-in processing of `tx` when the bank cannot be reached.
pub fn stip_fallback(tx: &UniversalPaymentEvent, lookup: Option<Option<CardProfile>>) -> (d: StipDecision)
    requires
        stip_debit_fits(tx@, lookup),
    ensures
        (d.reply@, d.updated_profile) == stip_outcome(tx@, lookup),
{
    let mut reply = tx.duplicate();
    reply.mti = bytes_to_vec(&[48u8, 49u8, 49u8, 48u8]);
    let amount = tx.amount as i64;
    let mut updated: Option<CardProfile> = None;
    match lookup {
        Some(Some(profile)) => {
            if profile.is_blocked {
                reply.response_code = ResponseCode(String::from_str("41"));
            } else if profile.balance >= amount {
                let mut p = profile;
                p.balance = p.balance - amount;
                updated = Some(p);
                reply.response_code = ResponseCode(String::from_str("00"));
                reply.processing_code = ProcessingCode(String::from_str("STIP12"));
            } else {
                reply.response_code = ResponseCode(String::from_str("51"));
            }
        },
        _ => {
            reply.response_code = ResponseCode(String::from_str("05"));
        },
    }
    let d = StipDecision { reply, updated_profile: updated };
    assert(d.reply@ =~= stip_outcome(tx@, lookup).0);
    d
}

/// Stand-in processing never overdraws: on a card with a non-negative
/// balance and an amount that fits a signed 64-bit integer, an approval
/// debits exactly the amount and leaves a non-negative balance; a decline
/// leaves the card as it was.
pub proof fn law_stip_never_overdraws(e: EventView, p: CardProfile)
    requires
        p.balance >= 0,
        e.amount <= i64::MAX,
    ensures
        ({
            let (reply, updated) = stip_outcome(e, Some(Some(p)));
            &&& reply.response_code == "00"@ ==> updated == Some(
                CardProfile { balance: (p.balance - e.amount) as i64, ..p },
            )
            &&& updated matches Some(q) ==> q.balance >= 0 && q.balance == p.balance - e.amount && q.is_blocked
                == p.is_blocked
            &&& updated is None ==> reply.response_code != "00"@ || p.is_blocked
        }),
{
    reveal_strlit("00");
    reveal_strlit("41");
    reveal_strlit("51");
    let a = e.amount;
    assert(a <= 0x7fff_ffff_ffff_ffffu64 ==> (a as i64) as int == a as int) by (bit_vector);
    assert("41"@ != "00"@) by {
        assert("41"@[0] != "00"@[0]);
    }
    assert("51"@ != "00"@) by {
        assert("51"@[0] != "00"@[0]);
    }
}

/// What the HSM stage decides: whether the card's credentials hold, and the
/// egress channel to send on.
pub struct HsmVerdict {
    pub valid: bool,
    pub target: Option<String>,
}

/// The HSM stage's verdict.  For the card database route the card must be
/// on file, its MAC (when it has one) must verify, and its PIN (when it has
/// one) must verify; it then goes to the card database.  For an external
/// route the MAC must verify and the PIN (when present) must translate; it
/// then goes to the route's node or its fail-over.  Without a route the
/// credentials stand and there is nowhere to send it.
pub open spec fn hsm_outcome(
    route: Option<Route>,
    card_on_file: bool,
    mac_ok: bool,
    pin_present: bool,
    pin_ok: bool,
    primary_online: Option<bool>,
    failover_online: Option<bool>,
) -> (bool, Option<Seq<char>>) {
    match route {
        None => (true, None),
        Some(r) => match r.destination {
            RouteDestination::InternalCrdb => if card_on_file && mac_ok && (!pin_present || pin_ok) {
                (true, Some(crdb_channel()))
            } else {
                (false, None)
            },
            RouteDestination::ExternalNode(n) => if mac_ok && (!pin_present || pin_ok) {
                (true, external_target(n@, opt_text(r.failover_node), primary_online, failover_online))
            } else {
                (false, None)
            },
        },
    }
}

/// The HSM stage's verdict for a transaction on `route`: `card_on_file`
/// tells whether the card database holds the card, `mac_ok` whether the MAC
/// verified (true when there is none), `pin_ok` whether the PIN verified
/// (card database) or translated (external node).
pub fn hsm_verdict(
    route: Option<&Route>,
    card_on_file: bool,
    mac_ok: bool,
    pin_present: bool,
    pin_ok: bool,
    primary_online: Option<bool>,
    failover_online: Option<bool>,
) -> (v: HsmVerdict)
    ensures
        (v.valid, opt_text(v.target)) == hsm_outcome(
            crate::routing::route_of(route),
            card_on_file,
            mac_ok,
            pin_present,
            pin_ok,
            primary_online,
            failover_online,
        ),
{
    match route {
        None => HsmVerdict { valid: true, target: None },
        Some(r) => match &r.destination {
            RouteDestination::InternalCrdb => {
                if card_on_file && mac_ok && (!pin_present || pin_ok) {
                    HsmVerdict { valid: true, target: Some(String::from_str("CRDB_DOMAIN_2")) }
                } else {
                    HsmVerdict { valid: false, target: None }
                }
            },
            RouteDestination::ExternalNode(n) => {
                if mac_ok && (!pin_present || pin_ok) {
                    HsmVerdict {
                        valid: true,
                        target: pick_node(n, &r.failover_node, primary_online, failover_online),
                    }
                } else {
                    HsmVerdict { valid: false, target: None }
                }
            },
        },
    }
}

/// The compliance lookup key of a PAN: `bin:` and its first six bytes, when
/// it has six; `None` for a shorter PAN.
pub open spec fn compliance_key_of(fpan: Seq<u8>) -> Option<Seq<char>> {
    let t = encode_utf8(decode_lossy(fpan));
    if t.len() >= 6 {
        Some("bin:"@ + decode_utf8(t.subrange(0, 6)))
    } else {
        None
    }
}

/// The PAN's text can be cut after its sixth byte.
pub open spec fn bin_sliceable(fpan: Seq<u8>) -> bool {
    let t = encode_utf8(decode_lossy(fpan));
    t.len() < 6 || is_char_boundary(t, 6)
}

/// The compliance lookup key of a PAN.
pub fn compliance_bin_key(fpan: &[u8]) -> (r: Option<String>)
    requires
        bin_sliceable(fpan@),
    ensures
        opt_text(r) == compliance_key_of(fpan@),
{
    let text = to_text(fpan);
    let s: &str = text.as_str();
    if s.as_bytes().len() < 6 {
        return None;
    }
    let (bin, _rest) = s.split_at(6);
    proof {
        vstd::utf8::encode_utf8_decode_utf8(bin@);
    }
    let mut key = String::from_str("bin:");
    key.append(bin);
    Some(key)
}

/// The compliance lookup key of any PAN: `None` when its text cannot be cut
/// after the sixth byte, else the key (`Some(None)` for a shorter PAN).
pub fn checked_compliance_bin_key(fpan: &[u8]) -> (r: Option<Option<String>>)
    ensures
        r is Some <==> bin_sliceable(fpan@),
        r matches Some(k) ==> opt_text(k) == compliance_key_of(fpan@),
{
    let text = to_text(fpan);
    let s: &str = text.as_str();
    proof {
        vstd::utf8::encode_utf8_decode_utf8(s@);
    }
    if s.as_bytes().len() >= 6 && !s.is_char_boundary(6) {
        return None;
    }
    Some(compliance_bin_key(fpan))
}

/// The compliance interceptor: the blocked entries of the sanctions list,
/// keyed `bin:` and a BIN.
#[derive(Debug)]
pub struct ComplianceGuard {
    cache: DashMap<String, String>,
}

impl View for ComplianceGuard {
    type V = Map<Seq<char>, Seq<char>>;

    closed spec fn view(&self) -> Map<Seq<char>, Seq<char>> {
        text_map(self.cache)
    }
}

impl ComplianceGuard {
    /// An interceptor that blocks nothing yet.
    pub fn new() -> (r: Self)
        ensures
            r@ == no_text(),
    {
        ComplianceGuard { cache: text_map_new() }
    }

    /// Puts `key` (such as `bin:411111`) on the blocked list.
    pub fn block(&mut self, key: String)
        ensures
            final(self)@ == old(self)@.insert(key@, "block"@),
    {
        text_map_insert(&mut self.cache, key, String::from_str("block"));
    }

    /// Whether the card's BIN is on the blocked list.
    pub fn evaluate(&self, fpan: &[u8]) -> (r: bool)
        requires
            bin_sliceable(fpan@),
        ensures
            r == (match compliance_key_of(fpan@) {
                Some(k) => self@.contains_key(k),
                None => false,
            }),
    {
        match compliance_bin_key(fpan) {
            Some(key) => text_map_contains(&self.cache, key.as_str()),
            None => false,
        }
    }
}

/// Detokenization: the transaction now carries the funding PAN the token
/// vault gave, and keeps the device PAN it arrived with.
pub fn apply_detokenization(tx: &mut UniversalPaymentEvent, real_fpan: &str)
    ensures
        final(tx)@ == (EventView {
            fpan: encode_utf8(real_fpan@),
            dpan: Some(decode_lossy(old(tx)@.fpan)),
            ..old(tx)@
        }),
{
    let dpan = to_text(tx.fpan.as_slice());
    tx.fpan = bytes_to_vec(real_fpan.as_bytes());
    tx.dpan = Some(dpan);
}

/// The HSM stage never lets bad credentials through: on any route, a MAC
/// that did not verify, or a PIN that is present and was not verified or
/// translated, gives an invalid verdict with nowhere to send the
/// transaction; and a card the card database does not hold is refused on
/// the card database route.
pub proof fn law_hsm_refuses_bad_credentials(
    route: Route,
    card_on_file: bool,
    mac_ok: bool,
    pin_present: bool,
    pin_ok: bool,
    primary_online: Option<bool>,
    failover_online: Option<bool>,
)
    ensures
        (!mac_ok || (pin_present && !pin_ok)) ==> hsm_outcome(
            Some(route),
            card_on_file,
            mac_ok,
            pin_present,
            pin_ok,
            primary_online,
            failover_online,
        ) == (false, None::<Seq<char>>),
        (route.destination is InternalCrdb && !card_on_file) ==> hsm_outcome(
            Some(route),
            card_on_file,
            mac_ok,
            pin_present,
            pin_ok,
            primary_online,
            failover_online,
        ) == (false, None::<Seq<char>>),
{
}

/// Good credentials pass the HSM stage: a card on file with a verified MAC
/// and a verified (or absent) PIN goes to the card database on its route,
/// and a verified MAC with a translated (or absent) PIN on an external
/// route goes to the node egress selection picks.
pub proof fn law_hsm_passes_good_credentials(
    route: Route,
    card_on_file: bool,
    pin_present: bool,
    pin_ok: bool,
    primary_online: Option<bool>,
    failover_online: Option<bool>,
)
    requires
        !pin_present || pin_ok,
    ensures
        (route.destination is InternalCrdb && card_on_file) ==> hsm_outcome(
            Some(route),
            card_on_file,
            true,
            pin_present,
            pin_ok,
            primary_online,
            failover_online,
        ) == (true, Some("CRDB_DOMAIN_2"@)),
        route.destination is ExternalNode ==> hsm_outcome(
            Some(route),
            card_on_file,
            true,
            pin_present,
            pin_ok,
            primary_online,
            failover_online,
        ) == (true, egress_choice(MessageClass::Authorization, Some(route), primary_online, failover_online)),
{
}

/// A transaction carrying a PIN block or a MAC goes through the HSM, and one
/// carrying neither does not.
pub proof fn law_credentials_go_through_hsm(e: EventView)
    ensures
        e.mac_data is Some ==> needs_hsm_spec(e),
        e.pin_block.len() > 0 ==> needs_hsm_spec(e),
        (e.mac_data is None && e.pin_block.len() == 0) ==> !needs_hsm_spec(e),
{
}

/// Egress selection on an external route, for every routed class
/// (authorization, financial, reversal advice, network management): the
/// route's node while it is not known to be down, else its fail-over node
/// while that one is not known to be down, else nowhere.
pub proof fn law_egress_external_route(
    class: MessageClass,
    node: String,
    failover: Option<String>,
    primary_online: Option<bool>,
    failover_online: Option<bool>,
)
    requires
        class == MessageClass::Authorization || class == MessageClass::Financial || class == MessageClass::ReversalAdvice
            || class == MessageClass::NetworkManagement,
    ensures
        ({
            let r = egress_choice(
                class,
                Some(Route { destination: RouteDestination::ExternalNode(node), failover_node: failover }),
                primary_online,
                failover_online,
            );
            &&& primary_online != Some(false) ==> r == Some(node@)
            &&& (primary_online == Some(false) && failover is Some && failover_online != Some(false)) ==> r == Some(
                failover->0@,
            )
            &&& (primary_online == Some(false) && (failover is None || failover_online == Some(false))) ==> r is None
        }),
{
}

/// Egress selection otherwise: a routed class on the card database route
/// goes to the card database; an unrouted PAN, or a class that is not
/// routed, goes nowhere.
pub proof fn law_egress_other_cases(
    class: MessageClass,
    route: Option<Route>,
    primary_online: Option<bool>,
    failover_online: Option<bool>,
)
    ensures
        !(class == MessageClass::Authorization || class == MessageClass::Financial || class == MessageClass::ReversalAdvice || class == MessageClass::NetworkManagement) ==> egress_choice(class, route, primary_online, failover_online) is None,
        route is None ==> egress_choice(class, route, primary_online, failover_online) is None,
        ((class == MessageClass::Authorization || class == MessageClass::Financial || class == MessageClass::ReversalAdvice || class == MessageClass::NetworkManagement) && route is Some && route->0.destination is InternalCrdb) ==> egress_choice(
            class,
            route,
            primary_online,
            failover_online,
        ) == Some("CRDB_DOMAIN_2"@),
{
}

} // verus!
