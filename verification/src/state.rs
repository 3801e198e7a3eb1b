//! The switch's live configuration: stand-in processing (STIP) rules by
//! network, card profiles of the stand-in database, and the states a
//! transaction passes through.
use vstd::prelude::*;
use vstd::string::StrSliceExecFns;
use crate::numeric::{append_bytes, decimal_digits, decimal_text};
use crate::text::{ascii_chars, ascii_text, bytes_equal, string_bytes};

verus! {

/// What to do for a network when its upstream bank cannot be reached.
#[derive(Debug, Clone)]
pub struct StipRule {
    pub action: String,
    /// The highest network risk score (0-100) let through; a transaction
    /// scoring above it is declined as suspected fraud before it is
    /// forwarded.  100 lets every score through.
    pub max_risk_score: u8,
}

/// The risk threshold a rule has when none is configured: 100, screening off.
pub fn default_max_risk_score() -> (r: u8)
    ensures
        r == 100,
{
    100
}

/// The content of a rule.
pub struct StipRuleView {
    pub action: Seq<char>,
    pub max_risk_score: u8,
}

impl View for StipRule {
    type V = StipRuleView;

    open spec fn view(&self) -> StipRuleView {
        StipRuleView { action: self.action@, max_risk_score: self.max_risk_score }
    }
}

/// The rule stored first under `key`.
pub open spec fn rule_lookup(rules: Seq<(String, StipRule)>, key: Seq<char>) -> Option<StipRuleView>
    decreases rules.len(),
{
    if rules.len() == 0 {
        None
    } else if rules[0].0@ == key {
        Some(rules[0].1@)
    } else {
        rule_lookup(rules.drop_first(), key)
    }
}

/// The STIP rules by network name.
#[derive(Debug, Clone)]
pub struct StipEngine {
    pub rules: Vec<(String, StipRule)>,
}

impl View for StipEngine {
    type V = Map<Seq<char>, StipRuleView>;

    open spec fn view(&self) -> Map<Seq<char>, StipRuleView> {
        Map::new(|k: Seq<char>| rule_lookup(self.rules@, k) is Some, |k: Seq<char>| rule_lookup(self.rules@, k)->0)
    }
}

proof fn lemma_lookup_update(rules: Seq<(String, StipRule)>, i: int, entry: (String, StipRule), k: Seq<char>)
    requires
        0 <= i < rules.len(),
        rules[i].0@ == entry.0@,
        forall|j: int| 0 <= j < i ==> rules[j].0@ != entry.0@,
    ensures
        rule_lookup(rules.update(i, entry), k) == (if k == entry.0@ { Some(entry.1@) } else { rule_lookup(rules, k) }),
    decreases i,
{
    let u = rules.update(i, entry);
    if i > 0 {
        lemma_lookup_update(rules.drop_first(), i - 1, entry, k);
        assert(u.drop_first() =~= rules.drop_first().update(i - 1, entry));
        assert(u[0] == rules[0]);
    } else {
        assert(u.drop_first() =~= rules.drop_first());
        assert(u[0] == entry);
    }
}

proof fn lemma_lookup_push(rules: Seq<(String, StipRule)>, entry: (String, StipRule), k: Seq<char>)
    requires
        forall|j: int| 0 <= j < rules.len() ==> rules[j].0@ != entry.0@,
    ensures
        rule_lookup(rules.push(entry), k) == (if k == entry.0@ { Some(entry.1@) } else { rule_lookup(rules, k) }),
    decreases rules.len(),
{
    let p = rules.push(entry);
    if rules.len() > 0 {
        lemma_lookup_push(rules.drop_first(), entry, k);
        assert(p.drop_first() =~= rules.drop_first().push(entry));
        assert(p[0] == rules[0]);
    } else {
        assert(p.drop_first() =~= Seq::<(String, StipRule)>::empty());
        assert(p[0] == entry);
        assert(rule_lookup(p.drop_first(), k) is None);
    }
}

proof fn lemma_lookup_miss(rules: Seq<(String, StipRule)>, i: int, k: Seq<char>)
    requires
        0 <= i <= rules.len(),
        forall|j: int| 0 <= j < i ==> rules[j].0@ != k,
    ensures
        rule_lookup(rules, k) == rule_lookup(rules.subrange(i, rules.len() as int), k),
    decreases i,
{
    if i > 0 {
        lemma_lookup_miss(rules.drop_first(), i - 1, k);
        assert(rules.drop_first().subrange(i - 1, rules.len() - 1) =~= rules.subrange(i, rules.len() as int));
    } else {
        assert(rules.subrange(0, rules.len() as int) =~= rules);
    }
}

impl StipEngine {
    /// No rules.
    pub fn new() -> (r: Self)
        ensures
            r@ == Map::<Seq<char>, StipRuleView>::empty(),
    {
        let r = StipEngine { rules: Vec::new() };
        assert(r@ =~= Map::<Seq<char>, StipRuleView>::empty());
        r
    }

    /// Stores `rule` for `network`, replacing the rule it had.
    pub fn insert(&mut self, network: String, rule: StipRule)
        ensures
            final(self)@ == old(self)@.insert(network@, rule@),
    {
        let ghost entry = (network, rule);
        let mut i: usize = 0;
        while i < self.rules.len()
            invariant
                i <= self.rules@.len(),
                self.rules@ == old(self).rules@,
                entry == (network, rule),
                forall|j: int| 0 <= j < i ==> self.rules@[j].0@ != network@,
            decreases self.rules@.len() - i,
        {
            if bytes_equal(string_bytes(&self.rules[i].0), string_bytes(&network)) {
                proof {
                    crate::text::lemma_decode_encoded(self.rules@[i as int].0@);
                    crate::text::lemma_decode_encoded(network@);
                    assert(self.rules@[i as int].0@ == network@);
                }
                let ghost before = self.rules@;
                self.rules.set(i, (network, rule));
                proof {
                    assert forall|k: Seq<char>| #[trigger] rule_lookup(self.rules@, k) == (if k == entry.0@ {
                        Some(entry.1@)
                    } else {
                        rule_lookup(before, k)
                    }) by {
                        lemma_lookup_update(before, i as int, entry, k);
                    }
                    assert(self@ =~= old(self)@.insert(entry.0@, entry.1@));
                }
                return;
            }
            i = i + 1;
        }
        let ghost before = self.rules@;
        self.rules.push((network, rule));
        proof {
            assert forall|k: Seq<char>| #[trigger] rule_lookup(self.rules@, k) == (if k == entry.0@ {
                Some(entry.1@)
            } else {
                rule_lookup(before, k)
            }) by {
                lemma_lookup_push(before, entry, k);
            }
            assert(self@ =~= old(self)@.insert(entry.0@, entry.1@));
        }
    }

    /// The rule for `network`.
    pub fn get(&self, network: &str) -> (r: Option<&StipRule>)
        ensures
            match r {
                Some(x) => self@.contains_key(network@) && self@[network@] == x@,
                None => !self@.contains_key(network@),
            },
    {
        let mut i: usize = 0;
        while i < self.rules.len()
            invariant
                i <= self.rules@.len(),
                forall|j: int| 0 <= j < i ==> self.rules@[j].0@ != network@,
            decreases self.rules@.len() - i,
        {
            if bytes_equal(string_bytes(&self.rules[i].0), network.as_bytes()) {
                proof {
                    crate::text::lemma_decode_encoded(self.rules@[i as int].0@);
                    crate::text::lemma_decode_encoded(network@);
                    lemma_lookup_miss(self.rules@, i as int, network@);
                    assert(self.rules@.subrange(i as int, self.rules@.len() as int)[0] == self.rules@[i as int]);
                }
                return Some(&self.rules[i].1);
            }
            proof {
                crate::text::lemma_decode_encoded(self.rules@[i as int].0@);
                crate::text::lemma_decode_encoded(network@);
            }
            i = i + 1;
        }
        proof {
            lemma_lookup_miss(self.rules@, i as int, network@);
            assert(self.rules@.subrange(i as int, self.rules@.len() as int) =~= Seq::<(String, StipRule)>::empty());
        }
        None
    }
}

/// `n` as signed decimal text.
pub open spec fn signed_decimal(n: int) -> Seq<u8> {
    if n < 0 {
        seq![45u8] + decimal_digits((-n) as nat)
    } else {
        decimal_digits(n as nat)
    }
}

/// The action text of a rule that approves up to `limit`: `APPROVE_UP_TO_` and the limit.
pub open spec fn approve_up_to(limit: int) -> Seq<u8> {
    seq![65u8, 80u8, 80u8, 82u8, 79u8, 86u8, 69u8, 95u8, 85u8, 80u8, 95u8, 84u8, 79u8, 95u8] + signed_decimal(limit)
}

/// The rule a published STIP row stands for: approve up to the row's limit,
/// with its risk threshold clamped to 0-100.
pub fn stip_rule_from_row(max_approval_amount: i64, max_risk_score: i32) -> (r: StipRule)
    ensures
        r.action@ == ascii_chars(approve_up_to(max_approval_amount as int)),
        r.max_risk_score == (if max_risk_score < 0 { 0 } else if max_risk_score > 100 { 100 } else { max_risk_score }),
{
    let mut text: Vec<u8> = Vec::new();
    append_bytes(&mut text, &[65u8, 80u8, 80u8, 82u8, 79u8, 86u8, 69u8, 95u8, 85u8, 80u8, 95u8, 84u8, 79u8, 95u8]);
    if max_approval_amount < 0 {
        append_bytes(&mut text, &[45u8]);
        let magnitude: u64 = if max_approval_amount == i64::MIN {
            9223372036854775808u64
        } else {
            (-max_approval_amount) as u64
        };
        let d = decimal_text(magnitude);
        append_bytes(&mut text, d.as_slice());
    } else {
        let d = decimal_text(max_approval_amount as u64);
        append_bytes(&mut text, d.as_slice());
    }
    proof {
        crate::numeric::lemma_decimal_digits(if max_approval_amount < 0 {
            (-(max_approval_amount as int)) as nat
        } else {
            max_approval_amount as nat
        });
        assert(text@ =~= approve_up_to(max_approval_amount as int));
        assert(crate::text::all_ascii(text@)) by {
            assert forall|i: int| 0 <= i < text@.len() implies #[trigger] text@[i] < 128 by {
                let p = 14int;
                if i >= p {
                    if max_approval_amount < 0 {
                        if i > p {
                            assert(text@[i] == decimal_digits((-(max_approval_amount as int)) as nat)[i - p - 1]);
                        }
                    } else {
                        assert(text@[i] == decimal_digits(max_approval_amount as nat)[i - p]);
                    }
                }
            }
        }
    }
    let score: u8 = if max_risk_score < 0 {
        0
    } else if max_risk_score > 100 {
        100
    } else {
        max_risk_score as u8
    };
    StipRule { action: ascii_text(text.as_slice()), max_risk_score: score }
}

/// A card's standing in the stand-in database.
#[derive(Debug, Clone, Copy, PartialEq, Eq, Structural)]
pub struct CardProfile {
    pub balance: i64,
    pub is_blocked: bool,
}

/// A character `str::trim` removes: one with the Unicode `White_Space` property.
pub open spec fn is_space(c: char) -> bool {
    let v = c as u32;
    (9 <= v <= 13) || v == 32 || v == 0x85 || v == 0xa0 || v == 0x1680 || (0x2000 <= v <= 0x200a) || v == 0x2028
        || v == 0x2029 || v == 0x202f || v == 0x205f || v == 0x3000
}

/// `s` without its leading whitespace.
pub open spec fn trim_start(s: Seq<char>) -> Seq<char>
    decreases s.len(),
{
    if s.len() > 0 && is_space(s[0]) {
        trim_start(s.drop_first())
    } else {
        s
    }
}

/// `s` without its trailing whitespace.
pub open spec fn trim_end(s: Seq<char>) -> Seq<char>
    decreases s.len(),
{
    if s.len() > 0 && is_space(s.last()) {
        trim_end(s.drop_last())
    } else {
        s
    }
}

/// `s` without its leading and trailing whitespace (`str::trim`).
pub open spec fn trimmed(s: Seq<char>) -> Seq<char> {
    trim_end(trim_start(s))
}

/// The code of a character with ASCII capitals lowered.
pub open spec fn lower_code(c: char) -> u32 {
    let v = c as u32;
    if 65 <= v <= 90 {
        (v + 32) as u32
    } else {
        v
    }
}

/// `a` equals `b` but for the case of ASCII letters.
pub open spec fn eq_ignore_ascii_case(a: Seq<char>, b: Seq<char>) -> bool {
    a.len() == b.len() && forall|i: int| 0 <= i < a.len() ==> #[trigger] lower_code(a[i]) == lower_code(b[i])
}

/// A loaded card's status marks it blocked: trimmed, it reads `Blocked` in
/// any case, or `0`.
pub open spec fn is_blocked_status(status: Seq<char>) -> bool {
    eq_ignore_ascii_case(trimmed(status), seq!['B', 'l', 'o', 'c', 'k', 'e', 'd']) || trimmed(status) == seq!['0']
}

fn space_char(c: char) -> (r: bool)
    ensures
        r == is_space(c),
{
    let v = c as u32;
    (9 <= v && v <= 13) || v == 32 || v == 0x85 || v == 0xa0 || v == 0x1680 || (0x2000 <= v && v <= 0x200a)
        || v == 0x2028 || v == 0x2029 || v == 0x202f || v == 0x205f || v == 0x3000
}

fn lower_of(c: char) -> (r: u32)
    ensures
        r == lower_code(c),
{
    let v = c as u32;
    if 65 <= v && v <= 90 {
        v + 32
    } else {
        v
    }
}

/// The character bounds `[a, b)` of `s` with its surrounding whitespace cut off.
fn trim_bounds(s: &str) -> (r: (usize, usize))
    ensures
        r.0 <= r.1 <= s@.len(),
        trimmed(s@) == s@.subrange(r.0 as int, r.1 as int),
{
    let n = s.unicode_len();
    let mut a: usize = 0;
    assert(s@.subrange(0, n as int) =~= s@);
    while a < n && space_char(s.get_char(a))
        invariant
            n == s@.len(),
            a <= n,
            trim_start(s@) == trim_start(s@.subrange(a as int, n as int)),
        decreases n - a,
    {
        assert(s@.subrange(a as int, n as int).drop_first() =~= s@.subrange(a + 1, n as int));
        a = a + 1;
    }
    if a == n {
        assert(s@.subrange(a as int, n as int) =~= Seq::<char>::empty());
    }
    assert(trim_start(s@) == s@.subrange(a as int, n as int));
    let mut b: usize = n;
    while b > a && space_char(s.get_char(b - 1))
        invariant
            n == s@.len(),
            a <= b <= n,
            trimmed(s@) == trim_end(s@.subrange(a as int, b as int)),
        decreases b - a,
    {
        assert(s@.subrange(a as int, b as int).drop_last() =~= s@.subrange(a as int, b - 1));
        b = b - 1;
    }
    (a, b)
}

/// The standing a stand-in database row gives a card: its balance, blocked
/// when its status says so.
pub fn card_profile_from_row(balance: i64, status: &str) -> (r: CardProfile)
    ensures
        r.balance == balance,
        r.is_blocked == is_blocked_status(status@),
{
    let (a, b) = trim_bounds(status);
    let ghost t = status@.subrange(a as int, b as int);
    let mut blocked = false;
    if b - a == 7 {
        let expected: [u32; 7] = [98, 108, 111, 99, 107, 101, 100];
        let ghost word = seq!['B', 'l', 'o', 'c', 'k', 'e', 'd'];
        assert(forall|i: int| 0 <= i < 7 ==> #[trigger] lower_code(word[i]) == expected@[i]);
        let mut i: usize = 0;
        let mut all = true;
        while i < 7
            invariant
                b - a == 7,
                b <= status@.len(),
                t == status@.subrange(a as int, b as int),
                i <= 7,
                expected@ == seq![98u32, 108u32, 111u32, 99u32, 107u32, 101u32, 100u32],
                forall|k: int| 0 <= k < 7 ==> #[trigger] lower_code(word[k]) == expected@[k],
                word == seq!['B', 'l', 'o', 'c', 'k', 'e', 'd'],
                all == (forall|k: int| 0 <= k < i ==> #[trigger] lower_code(t[k]) == lower_code(word[k])),
            decreases 7 - i,
        {
            let c = status.get_char(a + i);
            if lower_of(c) != expected[i] {
                all = false;
            }
            proof {
                assert(t[i as int] == c);
                if !all {
                    if lower_code(c) != expected@[i as int] {
                        assert(lower_code(t[i as int]) != lower_code(word[i as int]));
                    }
                }
            }
            i = i + 1;
        }
        blocked = all;
    } else if b - a == 1 {
        let c = status.get_char(a);
        blocked = c == '0';
        assert(t.len() == 1 && t[0] == c);
        if blocked {
            assert(t =~= seq!['0']);
        }
    }
    proof {
        if b - a != 7 {
            assert(!eq_ignore_ascii_case(t, seq!['B', 'l', 'o', 'c', 'k', 'e', 'd']));
        }
        if b - a != 1 {
            assert(t != seq!['0']) by {
                assert(seq!['0'].len() == 1);
            }
        }
        if b - a == 7 {
            assert(t != seq!['0']) by {
                assert(seq!['0'].len() == 1);
            }
        }
    }
    CardProfile { balance, is_blocked: blocked }
}

/// Where a transaction stands with its upstream bank.
#[derive(Debug, Clone, Copy, PartialEq, Eq, Structural)]
pub enum NetworkState {
    HSMPending,
    UpstreamSent,
    /// Its reversal has arrived and is being settled.
    ReversedPending,
    Reversed,
    Completed,
}

/// How far a transaction has come through the ingress pipeline.
#[derive(Debug, Clone, Copy, PartialEq, Eq, Structural)]
pub enum TxState {
    Received,
    HSMPending,
    Journaled,
    Routing,
}

} // verus!
