//! The ingress step: what the switch does with a transaction that arrives,
//! in the order the screens apply. The sanctions list comes first (`93`),
//! then the token vault (`56`), the risk pre-screen (`59`), the switch's own
//! echo, reversals, and last the idempotency guard (`94` for a duplicate).
use vstd::prelude::*;
use vstd::utf8::encode_utf8;
use crate::canonical::{spec_to_pb, to_pb, EventView, Rrn, TransactionView, UniversalPaymentEvent};
use crate::engine::{
    acknowledged, checked_compliance_bin_key, egress_stan_of, original_stan_ok, answered_by_switch, apply_detokenization, bin_sliceable, compliance_key_of, decline, declined,
    echo_reply, echoed, is_switch_echo, needs_hsm, needs_hsm_spec, opt_text, original_stan, original_stan_of,
    original_stan_sliceable, reversal_ack, risk_declined, risk_declines, ComplianceGuard,
};
use crate::guard::{
    idempotency_key, key_text, law_forwarded_reply_matches, lists_reversals, reply_key, marked_for_reversal, registers, texts_of, ActiveTransaction,
    IdempotencyGuard,
};
use crate::ledger::{mask_ok, masked_pan, masked_text, maskable};
use crate::state::{NetworkState, StipEngine, StipRuleView};
use crate::text::{copy_string, decode_lossy, to_text};
use crate::vault::TspVault;

verus! {

/// What to do with an arriving transaction.
pub enum IngressAction {
    /// Answer the acquirer at once with this reply.
    Reply(UniversalPaymentEvent),
    /// A reversal: post these events to the ledger, and answer with `reply`.
    Reversal { ledger: Vec<UniversalPaymentEvent>, reply: UniversalPaymentEvent },
    /// The transaction is in flight under `key`: send it on, through the HSM
    /// first when `to_hsm`.
    Proceed { key: String, tx: UniversalPaymentEvent, to_hsm: bool },
}

/// An ingress action as a value.
pub enum IngressView {
    Reply(EventView),
    Reversal { ledger: Seq<EventView>, ack: EventView },
    Proceed { key: Seq<char>, event: EventView, to_hsm: bool },
}

/// The views of a sequence of events.
pub open spec fn event_views(v: Seq<UniversalPaymentEvent>) -> Seq<EventView> {
    v.map_values(|x: UniversalPaymentEvent| x@)
}

impl View for IngressAction {
    type V = IngressView;

    open spec fn view(&self) -> IngressView {
        match self {
            IngressAction::Reply(r) => IngressView::Reply(r@),
            IngressAction::Reversal { ledger, reply } => IngressView::Reversal { ledger: event_views(ledger@), ack: reply@ },
            IngressAction::Proceed { key, tx, to_hsm } => IngressView::Proceed { key: key@, event: tx@, to_hsm: *to_hsm },
        }
    }
}

/// Whether the sanctions list `blocked` (keyed `bin:` and a BIN) blocks the card.
pub open spec fn blocked_by(blocked: Map<Seq<char>, Seq<char>>, fpan: Seq<u8>) -> bool {
    match compliance_key_of(fpan) {
        Some(k) => blocked.contains_key(k),
        None => false,
    }
}

/// The device PAN a tokenized transaction is looked up under: its PAN as text.
pub open spec fn device_pan(e: EventView) -> Seq<char> {
    decode_lossy(e.fpan)
}

/// Whether the vault gives `e` its funding PAN.
pub open spec fn vault_hit(e: EventView, vault: Map<Seq<char>, Seq<char>>) -> bool {
    e.is_tokenized && vault.contains_key(device_pan(e))
}

/// `e` after detokenization: a tokenized transaction the vault knows carries
/// its funding PAN and keeps its device PAN; any other is unchanged.
pub open spec fn detokenized(e: EventView, vault: Map<Seq<char>, Seq<char>>) -> EventView {
    if vault_hit(e, vault) {
        EventView { fpan: encode_utf8(vault[device_pan(e)]), dpan: Some(device_pan(e)), ..e }
    } else {
        e
    }
}

/// The reply the screens give before the idempotency guard is consulted,
/// if one does: `93` for a sanctioned BIN, `56` for a token the vault does
/// not know, `59` for a risk score above the network's threshold, and the
/// echo of a network management message meant for the switch.
pub open spec fn screened_reply(
    e: EventView,
    blocked: Map<Seq<char>, Seq<char>>,
    vault: Map<Seq<char>, Seq<char>>,
    rules: Map<Seq<char>, StipRuleView>,
) -> Option<EventView> {
    let d = detokenized(e, vault);
    if blocked_by(blocked, e.fpan) {
        Some(declined(e, "93"@))
    } else if e.is_tokenized && !vault.contains_key(device_pan(e)) {
        Some(declined(e, "56"@))
    } else if risk_declined(d, rules) {
        Some(declined(d, "59"@))
    } else if answered_by_switch(d) {
        Some(echoed(d))
    } else {
        None
    }
}

/// The masked device PAN logged when the vault detokenizes `e`.
pub open spec fn detokenization_log(e: EventView, blocked: Map<Seq<char>, Seq<char>>, vault: Map<Seq<char>, Seq<char>>) -> Option<Seq<char>> {
    if !blocked_by(blocked, e.fpan) && vault_hit(e, vault) {
        Some(masked_text(device_pan(e)))
    } else {
        None
    }
}

/// The STAN of the original transaction a reversal names, when it names one.
pub open spec fn reversed_stan(d: EventView) -> Option<Seq<char>> {
    match d.original_data_elements {
        Some(od) => original_stan_of(od),
        None => None,
    }
}

/// The RRNs of a sequence of events.
pub open spec fn rrns_of(events: Seq<EventView>) -> Seq<Seq<char>> {
    events.map_values(|x: EventView| x.rrn)
}

/// `ledger` posts the reversal `d` once for each transaction in flight under
/// the STAN it names, each a copy of `d` with that transaction's RRN.
pub open spec fn reversal_postings(m: Map<Seq<char>, ActiveTransaction>, d: EventView, ledger: Seq<EventView>) -> bool {
    &&& forall|i: int| 0 <= i < ledger.len() ==> #[trigger] ledger[i] == (EventView { rrn: ledger[i].rrn, ..d })
    &&& reversed_stan(d) is None ==> ledger.len() == 0
    &&& reversed_stan(d) is Some ==> exists|order: Seq<Seq<char>>| #[trigger] lists_reversals(m, reversed_stan(d)->0, rrns_of(ledger), order)
}

/// The guard after the reversal `d`: the transactions under the STAN it
/// names are marked as being reversed.
pub open spec fn after_reversal(m: Map<Seq<char>, ActiveTransaction>, d: EventView) -> Map<Seq<char>, ActiveTransaction> {
    match reversed_stan(d) {
        Some(stan) => marked_for_reversal(m, stan),
        None => m,
    }
}

/// The key a transaction is held under: `rrn-stan-acquirer`.
pub open spec fn flight_key(e: EventView) -> Seq<char> {
    key_text(e.rrn, e.stan, decode_lossy(e.acquirer_id))
}

/// `m1` is `m0` with `d` registered under `key` at `now`, waiting on the bank.
pub open spec fn registered_as(m0: Map<Seq<char>, ActiveTransaction>, m1: Map<Seq<char>, ActiveTransaction>, key: Seq<char>, d: EventView, now: u64) -> bool {
    &&& m1 == m0.insert(key, m1[key])
    &&& m1[key].created_at_ms == now
    &&& m1[key].state == NetworkState::UpstreamSent
    &&& m1[key].transaction_data@ == spec_to_pb(d)
    &&& m1[key].egress_stan is None
}

/// The ingress step, from the guard `m0` to `m1`, with action `a` and the
/// detokenization log `log`.
pub open spec fn ingress_outcome(
    e: EventView,
    blocked: Map<Seq<char>, Seq<char>>,
    vault: Map<Seq<char>, Seq<char>>,
    rules: Map<Seq<char>, StipRuleView>,
    m0: Map<Seq<char>, ActiveTransaction>,
    m1: Map<Seq<char>, ActiveTransaction>,
    now: u64,
    a: IngressView,
    log: Option<Seq<char>>,
) -> bool {
    let d = detokenized(e, vault);
    &&& log == detokenization_log(e, blocked, vault)
    &&& match screened_reply(e, blocked, vault, rules) {
        Some(reply) => a == IngressView::Reply(reply) && m1 == m0,
        None => if d.is_reversal {
            &&& a is Reversal
            &&& a->ack == acknowledged(d)
            &&& reversal_postings(m0, d, a->ledger)
            &&& m1 == after_reversal(m0, d)
        } else if registers(m0, flight_key(d)) {
            &&& a == (IngressView::Proceed { key: flight_key(d), event: d, to_hsm: needs_hsm_spec(d) })
            &&& registered_as(m0, m1, flight_key(d), d, now)
        } else {
            a == IngressView::Reply(declined(d, "94"@)) && m1 == m0
        },
    }
}

/// The inputs the ingress step takes: a PAN whose BIN can be cut, a device
/// PAN the log can mask, and original data elements that can be cut for
/// the original STAN where a reversal reads them.
pub open spec fn ingress_admits(
    e: EventView,
    blocked: Map<Seq<char>, Seq<char>>,
    vault: Map<Seq<char>, Seq<char>>,
    rules: Map<Seq<char>, StipRuleView>,
) -> bool {
    let d = detokenized(e, vault);
    &&& bin_sliceable(e.fpan)
    &&& (!blocked_by(blocked, e.fpan) && vault_hit(e, vault)) ==> encode_utf8(device_pan(e)).len() >= 6 && maskable(
        device_pan(e),
    )
    &&& (screened_reply(e, blocked, vault, rules) is None && d.is_reversal && d.original_data_elements is Some)
        ==> original_stan_sliceable(d.original_data_elements->0)
}

/// A transaction whose risk score is above its network's threshold, and
/// that neither the sanctions list nor the token vault turned away, is
/// declined `59` and never registered or forwarded.
pub proof fn law_risky_declined_before_forwarding(
    e: EventView,
    blocked: Map<Seq<char>, Seq<char>>,
    vault: Map<Seq<char>, Seq<char>>,
    rules: Map<Seq<char>, StipRuleView>,
    m0: Map<Seq<char>, ActiveTransaction>,
    m1: Map<Seq<char>, ActiveTransaction>,
    now: u64,
    a: IngressView,
    log: Option<Seq<char>>,
)
    requires
        ingress_outcome(e, blocked, vault, rules, m0, m1, now, a, log),
        !blocked_by(blocked, e.fpan),
        !e.is_tokenized || vault.contains_key(device_pan(e)),
        risk_declined(detokenized(e, vault), rules),
    ensures
        a == IngressView::Reply(declined(detokenized(e, vault), "59"@)),
        m1 == m0,
{
}

/// Only a transaction that passes every screen and is not already in flight
/// is sent on, and it is then in flight under its key.
pub proof fn law_forwarded_only_when_fresh(
    e: EventView,
    blocked: Map<Seq<char>, Seq<char>>,
    vault: Map<Seq<char>, Seq<char>>,
    rules: Map<Seq<char>, StipRuleView>,
    m0: Map<Seq<char>, ActiveTransaction>,
    m1: Map<Seq<char>, ActiveTransaction>,
    now: u64,
    a: IngressView,
    log: Option<Seq<char>>,
)
    requires
        ingress_outcome(e, blocked, vault, rules, m0, m1, now, a, log),
        a is Proceed,
    ensures
        screened_reply(e, blocked, vault, rules) is None,
        !detokenized(e, vault).is_reversal,
        !m0.contains_key(a->key),
        m1.contains_key(a->key),
        a->key == flight_key(detokenized(e, vault)),
{
}

/// A transaction registered under its key and forwarded with the egress
/// STAN drawn from `counter` is found again by a bank reply that carries
/// that STAN with the transaction's RRN and acquirer: the reply's key is the
/// transaction's key.
pub proof fn law_forwarded_transaction_answered(tbl: Map<Seq<char>, Seq<char>>, e: EventView, counter: u64, reply: TransactionView)
    requires
        reply.stan == egress_stan_of(counter),
        reply.rrn == e.rrn,
        reply.acquirer_id == decode_lossy(e.acquirer_id),
    ensures
        reply_key(tbl.insert(egress_stan_of(counter), e.stan), reply) == flight_key(e),
{
    law_forwarded_reply_matches(tbl, egress_stan_of(counter), e.stan, reply);
}

/// A transaction sent on goes through the HSM exactly when it carries a PIN
/// block or a MAC.
pub proof fn law_sent_through_hsm_with_credentials(
    e: EventView,
    blocked: Map<Seq<char>, Seq<char>>,
    vault: Map<Seq<char>, Seq<char>>,
    rules: Map<Seq<char>, StipRuleView>,
    m0: Map<Seq<char>, ActiveTransaction>,
    m1: Map<Seq<char>, ActiveTransaction>,
    now: u64,
    a: IngressView,
    log: Option<Seq<char>>,
)
    requires
        ingress_outcome(e, blocked, vault, rules, m0, m1, now, a, log),
        a is Proceed,
    ensures
        a->to_hsm == (a->event.pin_block.len() > 0 || a->event.mac_data is Some),
        a->event.mac_data == e.mac_data,
        a->event.pin_block == e.pin_block,
{
}

/// Whether the ingress step takes `tx`.
pub fn ingress_admissible(tx: &UniversalPaymentEvent, compliance: &ComplianceGuard, vault: &TspVault, rules: &StipEngine) -> (r: bool)
    ensures
        r == ingress_admits(tx@, compliance@, vault@, rules@),
{
    match checked_compliance_bin_key(tx.fpan.as_slice()) {
        None => false,
        Some(_) => {
            if compliance.evaluate(tx.fpan.as_slice()) {
                return true;
            }
            let mut t = tx.duplicate();
            if t.is_tokenized {
                let dpan = to_text(t.fpan.as_slice());
                match vault.detokenize(dpan.as_str()) {
                    Some(funding) => {
                        if dpan.as_str().as_bytes().len() < 6 || !mask_ok(dpan.as_str()) {
                            return false;
                        }
                        apply_detokenization(&mut t, funding.as_str());
                    },
                    None => return true,
                }
            }
            if risk_declines(&t, rules) || is_switch_echo(&t) || !t.is_reversal {
                return true;
            }
            match &t.original_data_elements {
                Some(odata) => original_stan_ok(odata.as_str()),
                None => true,
            }
        },
    }
}

/// The ingress step: screens `tx` in order, and either answers it, posts
/// and acknowledges a reversal, or registers it in the guard to be sent on.
pub fn ingress_decision(
    tx: &UniversalPaymentEvent,
    compliance: &ComplianceGuard,
    vault: &TspVault,
    rules: &StipEngine,
    guard: &mut IdempotencyGuard,
    now_ms: u64,
) -> (r: (IngressAction, Option<String>))
    requires
        ingress_admits(tx@, compliance@, vault@, rules@),
    ensures
        ingress_outcome(
            tx@,
            compliance@,
            vault@,
            rules@,
            old(guard)@,
            final(guard)@,
            now_ms,
            r.0@,
            opt_text(r.1),
        ),
{
    if compliance.evaluate(tx.fpan.as_slice()) {
        return (IngressAction::Reply(decline(tx, "93")), None);
    }
    let mut t = tx.duplicate();
    let mut log: Option<String> = None;
    if t.is_tokenized {
        let dpan = to_text(t.fpan.as_slice());
        match vault.detokenize(dpan.as_str()) {
            Some(funding) => {
                apply_detokenization(&mut t, funding.as_str());
                log = Some(masked_pan(dpan.as_str()));
            },
            None => return (IngressAction::Reply(decline(tx, "56")), None),
        }
    }
    assert(t@ == detokenized(tx@, vault@));
    if risk_declines(&t, rules) {
        return (IngressAction::Reply(decline(&t, "59")), log);
    }
    if is_switch_echo(&t) {
        return (IngressAction::Reply(echo_reply(&t)), log);
    }
    if t.is_reversal {
        let ledger = reversal_postings_for(&t, guard);
        let reply = reversal_ack(&t);
        return (IngressAction::Reversal { ledger, reply }, log);
    }
    let acquirer = to_text(t.acquirer_id.as_slice());
    let key = idempotency_key(t.rrn.0.as_str(), t.stan.0.as_str(), acquirer.as_str());
    let entry = ActiveTransaction {
        created_at_ms: now_ms,
        state: NetworkState::UpstreamSent,
        transaction_data: to_pb(&t),
        egress_stan: None,
    };
    let to_hsm = needs_hsm(&t);
    if guard.register(copy_string(&key), entry) {
        (IngressAction::Proceed { key, tx: t, to_hsm }, log)
    } else {
        (IngressAction::Reply(decline(&t, "94")), log)
    }
}

/// Marks the transactions the reversal `d` names as being reversed, and
/// gives the ledger postings of the reversal.
fn reversal_postings_for(d: &UniversalPaymentEvent, guard: &mut IdempotencyGuard) -> (ledger: Vec<UniversalPaymentEvent>)
    requires
        d@.original_data_elements is Some ==> original_stan_sliceable(d@.original_data_elements->0),
    ensures
        reversal_postings(old(guard)@, d@, event_views(ledger@)),
        final(guard)@ == after_reversal(old(guard)@, d@),
{
    let mut ledger: Vec<UniversalPaymentEvent> = Vec::new();
    let stan = match &d.original_data_elements {
        Some(odata) => original_stan(odata.as_str()),
        None => None,
    };
    assert(opt_text(stan) == reversed_stan(d@));
    if stan.is_none() {
        assert(event_views(ledger@) =~= Seq::<EventView>::empty());
        return ledger;
    }
    let stan = stan.unwrap();
    let ghost m0 = guard@;
    let rrns = guard.mark_reversal_pending(stan.as_str());
    let n = rrns.len();
    let mut i: usize = 0;
    while i < n
        invariant
            n == rrns@.len(),
            i <= n,
            ledger@.len() == i,
            forall|j: int| 0 <= j < i ==> (#[trigger] ledger@[j])@ == (EventView { rrn: rrns@[j]@, ..d@ }),
        decreases n - i,
    {
        let mut ev = d.duplicate();
        ev.rrn = Rrn(copy_string(&rrns[i]));
        ledger.push(ev);
        i = i + 1;
    }
    proof {
        let views = event_views(ledger@);
        assert(rrns_of(views) =~= texts_of(rrns@));
        let order = choose|order: Seq<Seq<char>>| #[trigger] lists_reversals(m0, stan@, texts_of(rrns@), order);
        assert(lists_reversals(m0, stan@, rrns_of(views), order));
        assert forall|j: int| 0 <= j < views.len() implies #[trigger] views[j] == (EventView { rrn: views[j].rrn, ..d@ }) by {
            assert(views[j] == ledger@[j]@);
        }
        assert(reversed_stan(d@)->0 == stan@);
    }
    ledger
}

} // verus!
