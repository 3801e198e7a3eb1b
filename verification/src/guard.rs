//! The transactions in flight: the idempotency guard keyed by
//! `RRN-STAN-acquirer`, the STAN translation table between the STANs the
//! switch sends upstream and those its acquirers sent, the timeout reaper and
//! the handling of bank replies.
use vstd::prelude::*;
use vstd::string::StringExecFns;
use dashmap::DashMap;
use crate::canonical::{Transaction, TransactionView};
use crate::state::NetworkState;
use crate::tables::{text_map, text_map_insert, text_map_new, text_map_remove};
use crate::text::{copy_opt_string, opt_chars};

verus! {

/// A transaction the switch is waiting on.
#[derive(Debug)]
pub struct ActiveTransaction {
    /// When it was registered, in milliseconds of the switch's monotonic clock.
    pub created_at_ms: u64,
    pub state: NetworkState,
    /// Its journal record.
    pub transaction_data: Transaction,
    /// The STAN it was forwarded upstream under, once it has one.
    pub egress_stan: Option<String>,
}

/// `a` is a copy of `b`.
pub open spec fn same_entry(a: ActiveTransaction, b: ActiveTransaction) -> bool {
    &&& a.created_at_ms == b.created_at_ms
    &&& a.state == b.state
    &&& a.transaction_data@ == b.transaction_data@
    &&& opt_chars(a.egress_stan) == opt_chars(b.egress_stan)
}

impl ActiveTransaction {
    /// A field-for-field copy.
    pub fn duplicate(&self) -> (r: Self)
        ensures
            same_entry(r, *self),
    {
        ActiveTransaction {
            created_at_ms: self.created_at_ms,
            state: self.state,
            transaction_data: self.transaction_data.duplicate(),
            egress_stan: copy_opt_string(&self.egress_stan),
        }
    }
}

/// What the guard holds: each transaction in flight by the text of its key.
pub uninterp spec fn in_flight(m: DashMap<String, ActiveTransaction>) -> Map<Seq<char>, ActiveTransaction>;

/// Nothing in flight.
pub open spec fn nothing_in_flight() -> Map<Seq<char>, ActiveTransaction> {
    Map::empty()
}

/// `DashMap::new`: a map with no entries.
#[verifier::external_body]
fn flight_new() -> (m: DashMap<String, ActiveTransaction>)
    ensures
        in_flight(m) == nothing_in_flight(),
{
    DashMap::new()
}

/// `DashMap::len`: the number of entries.
#[verifier::external_body]
fn flight_len(m: &DashMap<String, ActiveTransaction>) -> (r: usize)
    ensures
        r == in_flight(*m).len(),
{
    m.len()
}

/// `DashMap::get`, copying the entry out.
#[verifier::external_body]
fn flight_get(m: &DashMap<String, ActiveTransaction>, k: &str) -> (r: Option<ActiveTransaction>)
    ensures
        r is Some <==> in_flight(*m).contains_key(k@),
        r matches Some(e) ==> same_entry(e, in_flight(*m)[k@]),
{
    m.get(k).map(|e| e.duplicate())
}

/// `DashMap::contains_key`.
#[verifier::external_body]
fn flight_contains(m: &DashMap<String, ActiveTransaction>, k: &str) -> (r: bool)
    ensures
        r == in_flight(*m).contains_key(k@),
{
    m.contains_key(k)
}

/// `DashMap::entry`: stores `v` under `k` when no entry has that key, and
/// says whether it did; an occupied key keeps its entry.
#[verifier::external_body]
fn flight_insert_vacant(m: &mut DashMap<String, ActiveTransaction>, k: String, v: ActiveTransaction) -> (r: bool)
    ensures
        r == !in_flight(*old(m)).contains_key(k@),
        in_flight(*final(m)) == (if r { in_flight(*old(m)).insert(k@, v) } else { in_flight(*old(m)) }),
{
    match m.entry(k) {
        dashmap::mapref::entry::Entry::Occupied(_) => false,
        dashmap::mapref::entry::Entry::Vacant(slot) => {
            slot.insert(v);
            true
        },
    }
}

/// `DashMap::insert`: afterwards `k` holds `v`.
#[verifier::external_body]
fn flight_insert(m: &mut DashMap<String, ActiveTransaction>, k: String, v: ActiveTransaction)
    ensures
        in_flight(*final(m)) == in_flight(*old(m)).insert(k@, v),
{
    m.insert(k, v);
}

/// `DashMap::remove`: takes the entry of `k` out and hands back its value.
#[verifier::external_body]
fn flight_remove(m: &mut DashMap<String, ActiveTransaction>, k: &str) -> (r: Option<ActiveTransaction>)
    ensures
        in_flight(*final(m)) == in_flight(*old(m)).remove(k@),
        r is Some <==> in_flight(*old(m)).contains_key(k@),
        r matches Some(v) ==> in_flight(*old(m))[k@] == v,
{
    m.remove(k).map(|(_, v)| v)
}

/// `DashMap::get`, keeping the entry's state.
#[verifier::external_body]
fn flight_state(m: &DashMap<String, ActiveTransaction>, k: &str) -> (r: Option<NetworkState>)
    ensures
        r is Some <==> in_flight(*m).contains_key(k@),
        r matches Some(s) ==> in_flight(*m)[k@].state == s,
{
    m.get(k).map(|e| e.state)
}

/// `DashMap::iter`, keeping each entry's key: every key once, in an order
/// the map's hashing decides.
#[verifier::external_body]
fn flight_keys(m: &DashMap<String, ActiveTransaction>) -> (r: Vec<String>)
    ensures
        forall|i: int, j: int| 0 <= i < j < r@.len() ==> #[trigger] r@[i]@ != #[trigger] r@[j]@,
        forall|i: int| 0 <= i < r@.len() ==> in_flight(*m).contains_key(#[trigger] r@[i]@),
        forall|k: Seq<char>| in_flight(*m).contains_key(k) ==> exists|i: int| 0 <= i < r@.len() && #[trigger] r@[i]@ == k,
{
    m.iter().map(|e| e.key().clone()).collect()
}

/// The text `rrn-stan-acquirer` that identifies a transaction.
pub open spec fn key_text(rrn: Seq<char>, stan: Seq<char>, acquirer: Seq<char>) -> Seq<char> {
    rrn + seq!['-'] + stan + seq!['-'] + acquirer
}

/// The idempotency key of a transaction: `rrn-stan-acquirer`.
pub fn idempotency_key(rrn: &str, stan: &str, acquirer: &str) -> (k: String)
    ensures
        k@ == key_text(rrn@, stan@, acquirer@),
{
    let mut k = String::from_str(rrn);
    proof {
        reveal_strlit("-");
    }
    k.append("-");
    k.append(stan);
    k.append("-");
    k.append(acquirer);
    k
}

/// Whether registering under `key` succeeds: no transaction is in flight under it.
pub open spec fn registers(m: Map<Seq<char>, ActiveTransaction>, key: Seq<char>) -> bool {
    !m.contains_key(key)
}

/// The guard after registering `entry` under `key`.
pub open spec fn after_register(m: Map<Seq<char>, ActiveTransaction>, key: Seq<char>, entry: ActiveTransaction) -> Map<
    Seq<char>,
    ActiveTransaction,
> {
    if registers(m, key) {
        m.insert(key, entry)
    } else {
        m
    }
}

/// The key of the transaction a bank reply answers: its RRN, the
/// acquirer's STAN that its STAN translates back to (its own STAN when the
/// table has no translation), and its acquirer.
pub open spec fn reply_key(tbl: Map<Seq<char>, Seq<char>>, reply: TransactionView) -> Seq<char> {
    let ingress = if tbl.contains_key(reply.stan) { tbl[reply.stan] } else { reply.stan };
    key_text(reply.rrn, ingress, reply.acquirer_id)
}

/// A bank reply that carries the STAN a transaction was forwarded under,
/// with the transaction's RRN and acquirer, is matched back to the key the
/// transaction was registered under with its own STAN.
pub proof fn law_forwarded_reply_matches(tbl: Map<Seq<char>, Seq<char>>, egress: Seq<char>, ingress_stan: Seq<char>, reply: TransactionView)
    requires
        reply.stan == egress,
    ensures
        reply_key(tbl.insert(egress, ingress_stan), reply) == key_text(reply.rrn, ingress_stan, reply.acquirer_id),
{
}

/// The transactions in flight, by idempotency key.
#[derive(Debug)]
pub struct IdempotencyGuard {
    entries: DashMap<String, ActiveTransaction>,
}

impl View for IdempotencyGuard {
    type V = Map<Seq<char>, ActiveTransaction>;

    closed spec fn view(&self) -> Map<Seq<char>, ActiveTransaction> {
        in_flight(self.entries)
    }
}

/// `t` with its MTI and response code replaced.
pub open spec fn with_reply(t: TransactionView, mti: Seq<char>, response_code: Seq<char>) -> TransactionView {
    TransactionView { mti: mti, response_code: response_code, ..t }
}

/// An entry whose bank has not answered within `timeout` milliseconds.
pub open spec fn timed_out(e: ActiveTransaction, now: u64, timeout: u64) -> bool {
    e.state == NetworkState::UpstreamSent && now >= e.created_at_ms && now - e.created_at_ms > timeout
}

/// How long a finished entry is kept: 30 seconds.
pub open spec fn prune_after_ms() -> u64 {
    30_000
}

/// A finished entry older than the grace period.
pub open spec fn stale(e: ActiveTransaction, now: u64) -> bool {
    (e.state == NetworkState::Completed || e.state == NetworkState::Reversed) && now >= e.created_at_ms && now
        - e.created_at_ms > prune_after_ms()
}

/// An entry a reaper pass keeps: neither timed out nor stale.
pub open spec fn keeps(e: ActiveTransaction, now: u64, timeout: u64) -> bool {
    !timed_out(e, now, timeout) && !stale(e, now)
}

/// The entries a reaper pass keeps.
pub open spec fn kept(m: Map<Seq<char>, ActiveTransaction>, now: u64, timeout: u64) -> Map<Seq<char>, ActiveTransaction> {
    Map::new(|k: Seq<char>| m.contains_key(k) && keeps(m[k], now, timeout), |k: Seq<char>| m[k])
}

/// What the reaper does for a timed-out transaction: the key it drops, the
/// timeout reply (MTI `0110`, response code `68`) and the `0420` reversal.
pub struct ReaperAction {
    pub key: String,
    pub timeout_reply: Transaction,
    pub reversal: Transaction,
    pub egress_stan: Option<String>,
}

/// The content of a reaper action.
pub open spec fn action_view(a: ReaperAction) -> (Seq<char>, TransactionView, TransactionView) {
    (a.key@, a.timeout_reply@, a.reversal@)
}

/// The action for the timed-out transaction `e` under `k`.
pub open spec fn reaper_action_of(k: Seq<char>, e: ActiveTransaction) -> (Seq<char>, TransactionView, TransactionView) {
    (k, with_reply(e.transaction_data@, "0110"@, "68"@), TransactionView { mti: "0420"@, ..e.transaction_data@ })
}

/// `a` is the reaper's action for the entry of `m` it names, which timed out.
pub open spec fn acts_on(m: Map<Seq<char>, ActiveTransaction>, now: u64, timeout: u64, a: ReaperAction) -> bool {
    &&& m.contains_key(a.key@)
    &&& timed_out(m[a.key@], now, timeout)
    &&& action_view(a) == reaper_action_of(a.key@, m[a.key@])
    &&& a.egress_stan == m[a.key@].egress_stan
}

/// `acts` are the actions of a reaper pass over `m`: one for each timed-out
/// transaction, in some order.
pub open spec fn reaped(m: Map<Seq<char>, ActiveTransaction>, now: u64, timeout: u64, acts: Seq<ReaperAction>) -> bool {
    &&& forall|i: int| 0 <= i < acts.len() ==> acts_on(m, now, timeout, #[trigger] acts[i])
    &&& forall|i: int, j: int| 0 <= i < j < acts.len() ==> #[trigger] acts[i].key@ != #[trigger] acts[j].key@
    &&& forall|k: Seq<char>|
        m.contains_key(k) && timed_out(m[k], now, timeout) ==> exists|i: int| 0 <= i < acts.len() && #[trigger] acts[i].key@ == k
}

/// The text of an entry's egress STAN.
pub open spec fn egress_text(e: ActiveTransaction) -> Option<Seq<char>> {
    match e.egress_stan {
        Some(s) => Some(s@),
        None => None,
    }
}

/// Some timed-out entry of `m` whose key is in `keys` went upstream under `s`.
pub open spec fn releases(m: Map<Seq<char>, ActiveTransaction>, keys: Set<Seq<char>>, now: u64, timeout: u64, s: Seq<char>) -> bool {
    exists|k: Seq<char>| #[trigger] keys.contains(k) && m.contains_key(k) && timed_out(m[k], now, timeout) && egress_text(m[k]) == Some(s)
}

/// The translation table after the reaper releases the egress STANs of the
/// timed-out transactions of `m`.
pub open spec fn nat_released(tbl: Map<Seq<char>, Seq<char>>, m: Map<Seq<char>, ActiveTransaction>, now: u64, timeout: u64) -> Map<
    Seq<char>,
    Seq<char>,
> {
    Map::new(|s: Seq<char>| tbl.contains_key(s) && !releases(m, m.dom(), now, timeout, s), |s: Seq<char>| tbl[s])
}

/// The entries of `m` after the keys in `done` had their reaper step.
pub open spec fn reap_progress(m: Map<Seq<char>, ActiveTransaction>, done: Set<Seq<char>>, now: u64, timeout: u64) -> Map<
    Seq<char>,
    ActiveTransaction,
> {
    Map::new(|k: Seq<char>| m.contains_key(k) && (!done.contains(k) || keeps(m[k], now, timeout)), |k: Seq<char>| m[k])
}

/// The translation table after the keys in `done` had their reaper step.
pub open spec fn nat_progress(tbl: Map<Seq<char>, Seq<char>>, m: Map<Seq<char>, ActiveTransaction>, done: Set<Seq<char>>, now: u64, timeout: u64) -> Map<
    Seq<char>,
    Seq<char>,
> {
    Map::new(|s: Seq<char>| tbl.contains_key(s) && !releases(m, done, now, timeout, s), |s: Seq<char>| tbl[s])
}

/// The transaction under `k` is a reversal's target: its STAN is `stan`.
pub open spec fn reversal_target_of(m: Map<Seq<char>, ActiveTransaction>, k: Seq<char>, stan: Seq<char>) -> bool {
    m.contains_key(k) && m[k].transaction_data.stan@ == stan
}

/// `rrns` are the RRNs of the transactions of `m` whose STAN is `stan`, taken
/// in the order `order` of their keys.
pub open spec fn lists_reversals(m: Map<Seq<char>, ActiveTransaction>, stan: Seq<char>, rrns: Seq<Seq<char>>, order: Seq<Seq<char>>) -> bool {
    &&& order.len() == rrns.len()
    &&& order.no_duplicates()
    &&& forall|x: int| 0 <= x < order.len() ==> reversal_target_of(m, #[trigger] order[x], stan) && rrns[x]
        == m[order[x]].transaction_data.rrn@
    &&& forall|k: Seq<char>| reversal_target_of(m, k, stan) ==> #[trigger] order.contains(k)
}

/// The texts of a sequence of strings.
pub open spec fn texts_of(v: Seq<String>) -> Seq<Seq<char>> {
    v.map_values(|s: String| s@)
}

/// `e` marked as being reversed.
pub open spec fn pending_reversal(e: ActiveTransaction) -> ActiveTransaction {
    ActiveTransaction { state: NetworkState::ReversedPending, ..e }
}

/// The guard after every transaction whose STAN is `stan` is marked as being reversed.
pub open spec fn marked_for_reversal(m: Map<Seq<char>, ActiveTransaction>, stan: Seq<char>) -> Map<Seq<char>, ActiveTransaction> {
    Map::new(
        |k: Seq<char>| m.contains_key(k),
        |k: Seq<char>| if m[k].transaction_data.stan@ == stan { pending_reversal(m[k]) } else { m[k] },
    )
}

impl IdempotencyGuard {
    /// Nothing in flight.
    pub fn new() -> (r: Self)
        ensures
            r@ == nothing_in_flight(),
    {
        IdempotencyGuard { entries: flight_new() }
    }

    /// How many transactions are in flight.
    pub fn len(&self) -> (r: usize)
        ensures
            r == self@.len(),
    {
        flight_len(&self.entries)
    }

    /// The keys of the transactions in flight, each once, in no set order.
    pub fn keys(&self) -> (r: Vec<String>)
        ensures
            forall|i: int, j: int| 0 <= i < j < r@.len() ==> #[trigger] r@[i]@ != #[trigger] r@[j]@,
            forall|i: int| 0 <= i < r@.len() ==> self@.contains_key(#[trigger] r@[i]@),
            forall|k: Seq<char>| self@.contains_key(k) ==> exists|i: int| 0 <= i < r@.len() && #[trigger] r@[i]@ == k,
    {
        flight_keys(&self.entries)
    }

    /// A copy of the transaction in flight under `key`.
    pub fn entry(&self, key: &str) -> (r: Option<ActiveTransaction>)
        ensures
            r is Some <==> self@.contains_key(key@),
            r matches Some(e) ==> same_entry(e, self@[key@]),
    {
        flight_get(&self.entries, key)
    }

    /// Whether a transaction with this key is in flight.
    pub fn contains_key(&self, key: &str) -> (r: bool)
        ensures
            r == self@.contains_key(key@),
    {
        flight_contains(&self.entries, key)
    }

    /// Registers a transaction under `key` unless one is in flight under it
    /// already: `true` for a first sighting, `false` for a duplicate, which
    /// leaves the guard as it was.
    pub fn register(&mut self, key: String, entry: ActiveTransaction) -> (fresh: bool)
        ensures
            fresh == registers(old(self)@, key@),
            final(self)@ == after_register(old(self)@, key@, entry),
    {
        flight_insert_vacant(&mut self.entries, key, entry)
    }

    /// The state of the transaction under `key`.
    pub fn state_of(&self, key: &str) -> (r: Option<NetworkState>)
        ensures
            match r {
                Some(st) => self@.contains_key(key@) && self@[key@].state == st,
                None => !self@.contains_key(key@),
            },
    {
        flight_state(&self.entries, key)
    }

    /// Sets the state of the transaction under `key`; `false` when there is none.
    pub fn set_state(&mut self, key: &str, state: NetworkState) -> (found: bool)
        ensures
            found == old(self)@.contains_key(key@),
            final(self)@ == (if found {
                old(self)@.insert(key@, ActiveTransaction { state: state, ..old(self)@[key@] })
            } else {
                old(self)@
            }),
    {
        match flight_remove(&mut self.entries, key) {
            Some(mut e) => {
                e.state = state;
                flight_insert(&mut self.entries, String::from_str(key), e);
                assert(self@ =~= old(self)@.insert(key@, ActiveTransaction { state: state, ..old(self)@[key@] }));
                true
            },
            None => {
                assert(self@ =~= old(self)@);
                false
            },
        }
    }

    /// Records the STAN the transaction under `key` was forwarded upstream
    /// under; `false` when there is no such transaction.
    pub fn set_egress_stan(&mut self, key: &str, stan: String) -> (found: bool)
        ensures
            found == old(self)@.contains_key(key@),
            final(self)@ == (if found {
                old(self)@.insert(key@, ActiveTransaction { egress_stan: Some(stan), ..old(self)@[key@] })
            } else {
                old(self)@
            }),
    {
        let ghost s = stan;
        match flight_remove(&mut self.entries, key) {
            Some(mut e) => {
                e.egress_stan = Some(stan);
                flight_insert(&mut self.entries, String::from_str(key), e);
                assert(self@ =~= old(self)@.insert(key@, ActiveTransaction { egress_stan: Some(s), ..old(self)@[key@] }));
                true
            },
            None => {
                assert(self@ =~= old(self)@);
                false
            },
        }
    }

    /// Drops the transaction under `key` and hands it back.
    pub fn remove(&mut self, key: &str) -> (r: Option<ActiveTransaction>)
        ensures
            final(self)@ == old(self)@.remove(key@),
            match r {
                Some(e) => old(self)@.contains_key(key@) && old(self)@[key@] == e,
                None => !old(self)@.contains_key(key@),
            },
    {
        flight_remove(&mut self.entries, key)
    }

    /// One reaper pass at `now`: each transaction whose bank has not answered
    /// within `timeout` milliseconds is dropped, with its `0110`/`68` timeout
    /// reply and its `0420` reversal handed back and its egress STAN released
    /// from the translation table; finished transactions older than 30
    /// seconds are dropped too.
    pub fn reap(&mut self, table: &mut NatTable, now: u64, timeout: u64) -> (actions: Vec<ReaperAction>)
        ensures
            final(self)@ == kept(old(self)@, now, timeout),
            reaped(old(self)@, now, timeout, actions@),
            final(table)@ == nat_released(old(table)@, old(self)@, now, timeout),
    {
        let ghost m0 = self@;
        let ghost nat0 = table@;
        let keys = flight_keys(&self.entries);
        let mut actions: Vec<ReaperAction> = Vec::new();
        let ghost mut done: Set<Seq<char>> = Set::empty();
        assert(self@ =~= reap_progress(m0, done, now, timeout));
        assert(table@ =~= nat_progress(nat0, m0, done, now, timeout));
        let n = keys.len();
        let mut i: usize = 0;
        while i < n
            invariant
                n == keys@.len(),
                i <= n,
                m0 == old(self)@,
                nat0 == old(table)@,
                forall|a: int, b: int| 0 <= a < b < keys@.len() ==> #[trigger] keys@[a]@ != #[trigger] keys@[b]@,
                forall|a: int| 0 <= a < keys@.len() ==> m0.contains_key(#[trigger] keys@[a]@),
                forall|k: Seq<char>| m0.contains_key(k) ==> exists|a: int| 0 <= a < keys@.len() && #[trigger] keys@[a]@ == k,
                forall|a: int| 0 <= a < i ==> done.contains(#[trigger] keys@[a]@),
                forall|a: int| i <= a < keys@.len() ==> !done.contains(#[trigger] keys@[a]@),
                forall|k: Seq<char>| #[trigger] done.contains(k) ==> m0.contains_key(k),
                self@ == reap_progress(m0, done, now, timeout),
                table@ == nat_progress(nat0, m0, done, now, timeout),
                forall|x: int| 0 <= x < actions@.len() ==> acts_on(m0, now, timeout, #[trigger] actions@[x]) && done.contains(
                    actions@[x].key@,
                ),
                forall|x: int, y: int| 0 <= x < y < actions@.len() ==> #[trigger] actions@[x].key@ != #[trigger] actions@[y].key@,
                forall|k: Seq<char>|
                    #[trigger] done.contains(k) && timed_out(m0[k], now, timeout) ==> exists|x: int|
                        0 <= x < actions@.len() && #[trigger] actions@[x].key@ == k,
            decreases n - i,
        {
            let ghost k = keys@[i as int]@;
            let ghost done0 = done;
            let ghost acts0 = actions@;
            let ghost table0 = table@;
            let key_ref: &String = &keys[i];
            let entry = flight_remove(&mut self.entries, key_ref.as_str());
            assert(!done0.contains(k));
            let e = match entry {
                Some(e) => e,
                None => {
                    assert(false);
                    return actions;
                },
            };
            assert(e == m0[k]);
            proof {
                done = done.insert(k);
            }
            let started = now >= e.created_at_ms;
            let elapsed: u64 = if started { now - e.created_at_ms } else { 0 };
            let is_timed_out = match e.state {
                NetworkState::UpstreamSent => started && elapsed > timeout,
                _ => false,
            };
            if is_timed_out {
                let mut timeout_reply = e.transaction_data.duplicate();
                timeout_reply.mti = String::from_str("0110");
                timeout_reply.response_code = String::from_str("68");
                let mut reversal = e.transaction_data.duplicate();
                reversal.mti = String::from_str("0420");
                match &e.egress_stan {
                    Some(s) => {
                        table.remove(s.as_str());
                    },
                    None => {},
                }
                let ActiveTransaction { created_at_ms: _, state: _, transaction_data: _, egress_stan } = e;
                let key = String::from_str(key_ref.as_str());
                actions.push(ReaperAction { key, timeout_reply, reversal, egress_stan });
                proof {
                    let a = actions@[actions@.len() - 1];
                    assert(action_view(a) == reaper_action_of(k, m0[k]));
                    assert forall|x: int| 0 <= x < actions@.len() implies acts_on(m0, now, timeout, #[trigger] actions@[x])
                        && done.contains(actions@[x].key@) by {
                        if x < acts0.len() {
                            assert(actions@[x] == acts0[x]);
                        }
                    }
                    assert forall|x: int, y: int| 0 <= x < y < actions@.len() implies #[trigger] actions@[x].key@
                        != #[trigger] actions@[y].key@ by {
                        if y == actions@.len() - 1 {
                            assert(actions@[x] == acts0[x]);
                            assert(done0.contains(acts0[x].key@));
                        } else {
                            assert(actions@[x] == acts0[x] && actions@[y] == acts0[y]);
                        }
                    }
                    assert forall|k2: Seq<char>| #[trigger] done.contains(k2) && timed_out(m0[k2], now, timeout) implies exists|x: int|
                        0 <= x < actions@.len() && #[trigger] actions@[x].key@ == k2 by {
                        if k2 == k {
                            assert(actions@[actions@.len() - 1].key@ == k2);
                        } else {
                            assert(done0.contains(k2));
                            let x0 = choose|x: int| 0 <= x < acts0.len() && #[trigger] acts0[x].key@ == k2;
                            assert(actions@[x0] == acts0[x0]);
                        }
                    }
                    assert(self@ =~= reap_progress(m0, done, now, timeout));
                    lemma_nat_step(nat0, m0, done0, now, timeout, k);
                    match egress_text(m0[k]) {
                        Some(s) => {
                            assert(table@ =~= table0.remove(s));
                        },
                        None => {
                            assert(table@ == table0);
                        },
                    }
                    assert(table@ =~= nat_progress(nat0, m0, done, now, timeout));
                }
            } else {
                let is_stale = match e.state {
                    NetworkState::Completed => started && elapsed > 30_000,
                    NetworkState::Reversed => started && elapsed > 30_000,
                    _ => false,
                };
                if !is_stale {
                    flight_insert(&mut self.entries, String::from_str(key_ref.as_str()), e);
                }
                proof {
                    assert(self@ =~= reap_progress(m0, done, now, timeout));
                    lemma_nat_step(nat0, m0, done0, now, timeout, k);
                    assert(table@ =~= nat_progress(nat0, m0, done, now, timeout));
                    assert forall|k2: Seq<char>| #[trigger] done.contains(k2) && timed_out(m0[k2], now, timeout) implies exists|x: int|
                        0 <= x < actions@.len() && #[trigger] actions@[x].key@ == k2 by {
                        assert(k2 != k);
                        assert(done0.contains(k2));
                    }
                }
            }
            proof {
                assert forall|a: int| i < a < keys@.len() implies !done.contains(#[trigger] keys@[a]@) by {
                    assert(keys@[a]@ != keys@[i as int]@);
                }
            }
            i = i + 1;
        }
        proof {
            assert forall|k: Seq<char>| m0.contains_key(k) implies done.contains(k) by {
                let a = choose|a: int| 0 <= a < keys@.len() && #[trigger] keys@[a]@ == k;
                assert(done.contains(keys@[a]@));
            }
            assert(self@ =~= kept(m0, now, timeout));
            assert forall|s: Seq<char>| releases(m0, done, now, timeout, s) == releases(m0, m0.dom(), now, timeout, s) by {
                if releases(m0, done, now, timeout, s) {
                    let k = choose|k: Seq<char>| #[trigger] done.contains(k) && m0.contains_key(k) && timed_out(m0[k], now, timeout)
                        && egress_text(m0[k]) == Some(s);
                    assert(m0.dom().contains(k));
                }
                if releases(m0, m0.dom(), now, timeout, s) {
                    let k = choose|k: Seq<char>| #[trigger] m0.dom().contains(k) && m0.contains_key(k) && timed_out(m0[k], now, timeout)
                        && egress_text(m0[k]) == Some(s);
                    assert(done.contains(k));
                }
            }
            assert(table@ =~= nat_released(nat0, m0, now, timeout));
        }
        actions
    }

    /// A bank reply arrives.  Its STAN is translated back to the acquirer's
    /// (and released from the table; a STAN with no translation is taken as
    /// it is), which gives the key of the transaction it answers.  A reply
    /// to a transaction already reversed for timeout is dropped with it; a
    /// reply to one in flight completes it and yields the `0110` approval
    /// for the acquirer.
    pub fn on_bank_reply(&mut self, table: &mut NatTable, reply: &Transaction) -> (r: ReplyOutcome)
        ensures
            final(table)@ == old(table)@.remove(reply.stan@),
            ({
                let key = reply_key(old(table)@, reply@);
                let m = old(self)@;
                match r {
                    ReplyOutcome::Unmatched => !m.contains_key(key) && final(self)@ == m,
                    ReplyOutcome::LateReplyDropped { key: k } => k@ == key && m.contains_key(key) && m[key].state
                        == NetworkState::Reversed && final(self)@ == m.remove(key),
                    ReplyOutcome::Deliver { key: k, approval } => k@ == key && approval@ == TransactionView {
                        mti: "0110"@,
                        ..reply@
                    } && m.contains_key(key) && m[key].state != NetworkState::Reversed && final(self)@ == m.insert(
                        key,
                        ActiveTransaction { state: NetworkState::Completed, ..m[key] },
                    ),
                }
            }),
    {
        let ingress = match table.remove(reply.stan.as_str()) {
            Some(s) => s,
            None => reply.stan.clone(),
        };
        let key = idempotency_key(reply.rrn.as_str(), ingress.as_str(), reply.acquirer_id.as_str());
        match flight_state(&self.entries, key.as_str()) {
            None => ReplyOutcome::Unmatched,
            Some(state) => {
                let reversed = match state {
                    NetworkState::Reversed => true,
                    _ => false,
                };
                if reversed {
                    flight_remove(&mut self.entries, key.as_str());
                    ReplyOutcome::LateReplyDropped { key }
                } else {
                    self.set_state(key.as_str(), NetworkState::Completed);
                    let mut approval = reply.duplicate();
                    approval.mti = String::from_str("0110");
                    ReplyOutcome::Deliver { key, approval }
                }
            },
        }
    }

    /// Marks every transaction whose STAN is `original_stan` as being
    /// reversed, and gives the RRNs of those transactions.
    pub fn mark_reversal_pending(&mut self, original_stan: &str) -> (rrns: Vec<String>)
        ensures
            final(self)@ == marked_for_reversal(old(self)@, original_stan@),
            exists|order: Seq<Seq<char>>|
                #[trigger] lists_reversals(old(self)@, original_stan@, texts_of(rrns@), order),
    {
        let ghost m0 = self@;
        let ghost stan = original_stan@;
        let keys = flight_keys(&self.entries);
        let mut rrns: Vec<String> = Vec::new();
        let ghost mut done: Set<Seq<char>> = Set::empty();
        let ghost mut order: Seq<Seq<char>> = Seq::empty();
        assert(self@ =~= marked_upto(m0, done, stan));
        let n = keys.len();
        let mut i: usize = 0;
        while i < n
            invariant
                n == keys@.len(),
                i <= n,
                m0 == old(self)@,
                stan == original_stan@,
                forall|a: int, b: int| 0 <= a < b < keys@.len() ==> #[trigger] keys@[a]@ != #[trigger] keys@[b]@,
                forall|a: int| 0 <= a < keys@.len() ==> m0.contains_key(#[trigger] keys@[a]@),
                forall|k: Seq<char>| m0.contains_key(k) ==> exists|a: int| 0 <= a < keys@.len() && #[trigger] keys@[a]@ == k,
                forall|a: int| 0 <= a < i ==> done.contains(#[trigger] keys@[a]@),
                forall|a: int| i <= a < keys@.len() ==> !done.contains(#[trigger] keys@[a]@),
                forall|k: Seq<char>| #[trigger] done.contains(k) ==> m0.contains_key(k),
                self@ == marked_upto(m0, done, stan),
                order.len() == rrns@.len(),
                order.no_duplicates(),
                forall|x: int| 0 <= x < order.len() ==> reversal_target_of(m0, #[trigger] order[x], stan) && done.contains(order[x])
                    && rrns@[x]@ == m0[order[x]].transaction_data.rrn@,
                forall|k: Seq<char>| #[trigger] done.contains(k) && reversal_target_of(m0, k, stan) ==> order.contains(k),
            decreases n - i,
        {
            let ghost k = keys@[i as int]@;
            let ghost done0 = done;
            let ghost order0 = order;
            let ghost rrns0 = rrns@;
            let key_ref: &String = &keys[i];
            assert(!done0.contains(k));
            let entry = flight_remove(&mut self.entries, key_ref.as_str());
            let mut e = match entry {
                Some(e) => e,
                None => {
                    assert(false);
                    return rrns;
                },
            };
            assert(e == m0[k]);
            proof {
                done = done.insert(k);
                crate::text::lemma_decode_encoded(e.transaction_data.stan@);
                crate::text::lemma_decode_encoded(original_stan@);
            }
            let matches_stan = crate::text::bytes_equal(
                crate::text::string_bytes(&e.transaction_data.stan),
                original_stan.as_bytes(),
            );
            if matches_stan {
                e.state = NetworkState::ReversedPending;
                let rrn = e.transaction_data.rrn.clone();
                rrns.push(rrn);
                proof {
                    order = order.push(k);
                    assert forall|x: int| 0 <= x < order.len() implies reversal_target_of(m0, #[trigger] order[x], stan)
                        && done.contains(order[x]) && rrns@[x]@ == m0[order[x]].transaction_data.rrn@ by {
                        if x < order0.len() {
                            assert(order[x] == order0[x]);
                            assert(rrns@[x] == rrns0[x]);
                        }
                    }
                    assert forall|a: int, b: int| 0 <= a < order.len() && 0 <= b < order.len() && a != b implies order[a]
                        != order[b] by {
                        if a == order.len() - 1 {
                            assert(done0.contains(order0[b]));
                        } else if b == order.len() - 1 {
                            assert(done0.contains(order0[a]));
                        }
                    }
                    assert forall|k2: Seq<char>| #[trigger] done.contains(k2) && reversal_target_of(m0, k2, stan) implies order.contains(k2) by {
                        if k2 == k {
                            assert(order[order.len() - 1] == k);
                        } else {
                            assert(order0.contains(k2));
                            let x = choose|x: int| 0 <= x < order0.len() && order0[x] == k2;
                            assert(order[x] == k2);
                        }
                    }
                }
            } else {
                proof {
                    assert forall|k2: Seq<char>| #[trigger] done.contains(k2) && reversal_target_of(m0, k2, stan) implies order.contains(k2) by {
                        assert(k2 != k);
                    }
                    assert forall|x: int| 0 <= x < order.len() implies reversal_target_of(m0, #[trigger] order[x], stan)
                        && done.contains(order[x]) && rrns@[x]@ == m0[order[x]].transaction_data.rrn@ by {
                        assert(done0.contains(order0[x]));
                    }
                }
            }
            flight_insert(&mut self.entries, String::from_str(key_ref.as_str()), e);
            proof {
                assert(self@ =~= marked_upto(m0, done, stan));
                assert forall|a: int| i < a < keys@.len() implies !done.contains(#[trigger] keys@[a]@) by {
                    assert(keys@[a]@ != keys@[i as int]@);
                }
            }
            i = i + 1;
        }
        proof {
            assert forall|k: Seq<char>| m0.contains_key(k) implies done.contains(k) by {
                let a = choose|a: int| 0 <= a < keys@.len() && #[trigger] keys@[a]@ == k;
                assert(done.contains(keys@[a]@));
            }
            assert(self@ =~= marked_for_reversal(m0, stan));
            let rv = texts_of(rrns@);
            assert forall|x: int| 0 <= x < order.len() implies reversal_target_of(m0, #[trigger] order[x], stan) && rv[x]
                == m0[order[x]].transaction_data.rrn@ by {}
            assert(lists_reversals(m0, stan, rv, order));
        }
        rrns
    }
}

/// The guard after the keys in `done` were visited by the reversal marking.
pub open spec fn marked_upto(m: Map<Seq<char>, ActiveTransaction>, done: Set<Seq<char>>, stan: Seq<char>) -> Map<Seq<char>, ActiveTransaction> {
    Map::new(
        |k: Seq<char>| m.contains_key(k),
        |k: Seq<char>| if done.contains(k) && m[k].transaction_data.stan@ == stan { pending_reversal(m[k]) } else { m[k] },
    )
}

/// Visiting one more key in a reaper pass releases exactly its egress STAN,
/// when it timed out.
proof fn lemma_nat_step(tbl: Map<Seq<char>, Seq<char>>, m: Map<Seq<char>, ActiveTransaction>, done: Set<Seq<char>>, now: u64, timeout: u64, k: Seq<char>)
    requires
        m.contains_key(k),
    ensures
        forall|s: Seq<char>| #[trigger] releases(m, done.insert(k), now, timeout, s) == (releases(m, done, now, timeout, s) || (
        timed_out(m[k], now, timeout) && egress_text(m[k]) == Some(s))),
{
    assert forall|s: Seq<char>| #[trigger] releases(m, done.insert(k), now, timeout, s) == (releases(m, done, now, timeout, s) || (
    timed_out(m[k], now, timeout) && egress_text(m[k]) == Some(s))) by {
        if releases(m, done.insert(k), now, timeout, s) {
            let k2 = choose|k2: Seq<char>| #[trigger] done.insert(k).contains(k2) && m.contains_key(k2) && timed_out(m[k2], now, timeout)
                && egress_text(m[k2]) == Some(s);
            if k2 != k {
                assert(done.contains(k2));
            }
        }
        if releases(m, done, now, timeout, s) {
            let k2 = choose|k2: Seq<char>| #[trigger] done.contains(k2) && m.contains_key(k2) && timed_out(m[k2], now, timeout)
                && egress_text(m[k2]) == Some(s);
            assert(done.insert(k).contains(k2));
        }
        if timed_out(m[k], now, timeout) && egress_text(m[k]) == Some(s) {
            assert(done.insert(k).contains(k));
        }
    }
}

/// What became of a bank reply.
pub enum ReplyOutcome {
    /// No transaction in flight has its key.
    Unmatched,
    /// It answered a transaction already reversed for timeout; both are dropped.
    LateReplyDropped { key: String },
    /// It completed a transaction; the approval goes back to the acquirer
    /// once the reply is journalled.
    Deliver { key: String, approval: Transaction },
}

/// The STAN translation table: the STAN the switch sent upstream to the STAN
/// the acquirer sent.
#[derive(Debug)]
pub struct NatTable {
    entries: DashMap<String, String>,
}

impl View for NatTable {
    type V = Map<Seq<char>, Seq<char>>;

    closed spec fn view(&self) -> Map<Seq<char>, Seq<char>> {
        text_map(self.entries)
    }
}

impl NatTable {
    /// An empty table.
    pub fn new() -> (r: Self)
        ensures
            r@ == Map::<Seq<char>, Seq<char>>::empty(),
    {
        NatTable { entries: text_map_new() }
    }

    /// Records that `egress` stands for `ingress`, replacing what it stood for.
    pub fn insert(&mut self, egress: String, ingress: String)
        ensures
            final(self)@ == old(self)@.insert(egress@, ingress@),
    {
        text_map_insert(&mut self.entries, egress, ingress);
    }

    /// Takes out what `egress` stands for.
    pub fn remove(&mut self, egress: &str) -> (r: Option<String>)
        ensures
            final(self)@ == old(self)@.remove(egress@),
            match r {
                Some(s) => old(self)@.contains_key(egress@) && old(self)@[egress@] == s@,
                None => !old(self)@.contains_key(egress@),
            },
    {
        text_map_remove(&mut self.entries, egress)
    }
}

/// How long the reaper sleeps between passes, in milliseconds: half the
/// timeout when it is under a second, a second otherwise, and never less
/// than a millisecond.
pub open spec fn reaper_pause(timeout_ms: u64) -> u64 {
    let p = if timeout_ms < 1000 { timeout_ms / 2 } else { 1000 };
    if p < 1 { 1 } else { p }
}

/// How long the reaper sleeps between passes.
pub fn reaper_interval_ms(timeout_ms: u64) -> (r: u64)
    ensures
        r == reaper_pause(timeout_ms),
{
    let p = if timeout_ms < 1000 { timeout_ms / 2 } else { 1000 };
    if p < 1 { 1 } else { p }
}

/// A duplicate is turned away: once a key is registered, registering it again
/// fails and leaves the guard as it was.
pub proof fn law_duplicate_rejected(m: Map<Seq<char>, ActiveTransaction>, key: Seq<char>, first: ActiveTransaction, second: ActiveTransaction)
    ensures
        !registers(after_register(m, key, first), key),
        after_register(after_register(m, key, first), key, second) == after_register(m, key, first),
{
}

/// A transaction the reaper reverses for timeout leaves the guard: no entry
/// under its key survives the pass, so a bank reply that arrives for it
/// afterwards finds nothing to complete.
pub proof fn law_timed_out_is_evicted(m: Map<Seq<char>, ActiveTransaction>, now: u64, timeout: u64, k: Seq<char>)
    requires
        m.contains_key(k),
        timed_out(m[k], now, timeout),
    ensures
        !kept(m, now, timeout).contains_key(k),
{
}

/// The STAN translation gives back what it was given: after `egress` is
/// recorded for `ingress`, the bank reply carrying `egress` is translated to
/// `ingress`, and the entry is released.
pub proof fn law_nat_roundtrip(m: Map<Seq<char>, Seq<char>>, egress: Seq<char>, ingress: Seq<char>)
    ensures
        m.insert(egress, ingress).contains_key(egress),
        m.insert(egress, ingress)[egress] == ingress,
        !m.insert(egress, ingress).remove(egress).contains_key(egress),
{
}

} // verus!
