//! BIN routing: a trie from card-number prefixes to routes, answering each
//! PAN with the route of its longest routed prefix.
use std::collections::HashMap;
use vstd::prelude::*;
use vstd::string::StringExecFns;

verus! {

broadcast use vstd::std_specs::hash::group_hash_axioms;

/// Where a routed transaction goes.
#[derive(Debug, Clone, PartialEq)]
pub enum RouteDestination {
    /// The switch's own card database.
    InternalCrdb,
    /// An upstream node, by name.
    ExternalNode(String),
}

/// A route: a destination and the node to fail over to.
#[derive(Debug, Clone, PartialEq)]
pub struct Route {
    pub destination: RouteDestination,
    pub failover_node: Option<String>,
}

/// A trie node: the route of the prefix that leads here, and the children
/// by next byte.
#[derive(Debug)]
pub struct BinTrieNode {
    pub route: Option<Route>,
    pub children: HashMap<u8, Box<BinTrieNode>>,
}

/// The route the node reached from `n` along `key` holds, if any.
pub open spec fn node_lookup(n: BinTrieNode, key: Seq<u8>) -> Option<Route>
    decreases key.len(),
{
    if key.len() == 0 {
        n.route
    } else if n.children@.contains_key(key[0]) {
        node_lookup(*n.children@[key[0]], key.drop_first())
    } else {
        None
    }
}

/// The routes a node holds, by the key that leads to them.
pub open spec fn node_routes(n: BinTrieNode) -> Map<Seq<u8>, Route> {
    Map::new(|k: Seq<u8>| node_lookup(n, k) is Some, |k: Seq<u8>| node_lookup(n, k)->0)
}

impl View for BinTrieNode {
    type V = Map<Seq<u8>, Route>;

    open spec fn view(&self) -> Map<Seq<u8>, Route> {
        node_routes(*self)
    }
}

impl BinTrieNode {
    /// A node with no route and no children.
    pub fn new() -> (r: Self)
        ensures
            r.route is None,
            r.children@ == Map::<u8, Box<BinTrieNode>>::empty(),
            r@ == Map::<Seq<u8>, Route>::empty(),
    {
        let r = BinTrieNode { route: None, children: HashMap::new() };
        assert(r@ =~= Map::<Seq<u8>, Route>::empty());
        r
    }
}

/// A BIN routing table.
#[derive(Debug)]
pub struct BinTrie {
    pub root: BinTrieNode,
}

impl View for BinTrie {
    type V = Map<Seq<u8>, Route>;

    open spec fn view(&self) -> Map<Seq<u8>, Route> {
        node_routes(self.root)
    }
}

/// The route of the longest prefix `pan.take(j)`, `j <= i`, that has one.
pub open spec fn longest_match_upto(routes: Map<Seq<u8>, Route>, pan: Seq<u8>, i: int) -> Option<Route>
    decreases i + 1,
{
    if i < 0 {
        None
    } else if routes.contains_key(pan.take(i)) {
        Some(routes[pan.take(i)])
    } else {
        longest_match_upto(routes, pan, i - 1)
    }
}

/// The route of the longest prefix of `pan` that has one.
pub open spec fn longest_match(routes: Map<Seq<u8>, Route>, pan: Seq<u8>) -> Option<Route> {
    longest_match_upto(routes, pan, pan.len() as int)
}

/// The route an optional reference points to.
pub open spec fn route_of(r: Option<&Route>) -> Option<Route> {
    match r {
        Some(x) => Some(*x),
        None => None,
    }
}

proof fn lemma_lookup_path(n: BinTrieNode, p: Seq<u8>, b: u8, s: Seq<u8>)
    requires
        n.children@.contains_key(b),
    ensures
        node_lookup(n, seq![b] + s) == node_lookup(*n.children@[b], s),
{
    let k = seq![b] + s;
    assert(k[0] == b);
    assert(k.drop_first() =~= s);
}

proof fn lemma_match_stable(routes: Map<Seq<u8>, Route>, pan: Seq<u8>, i: int, j: int)
    requires
        0 <= i <= j,
        forall|k: int| i < k <= j ==> !routes.contains_key(#[trigger] pan.take(k)),
    ensures
        longest_match_upto(routes, pan, j) == longest_match_upto(routes, pan, i),
    decreases j - i,
{
    if j > i {
        lemma_match_stable(routes, pan, i, j - 1);
    }
}

impl Default for BinTrie {
    /// An empty table: a root with no route and no children.
    fn default() -> (r: Self)
        ensures
            r@ == Map::<Seq<u8>, Route>::empty(),
            r.root.route is None,
            r.root.children@ == Map::<u8, Box<BinTrieNode>>::empty(),
    {
        BinTrie::new()
    }
}

impl BinTrie {
    /// An empty table: a root with no route and no children.
    pub fn new() -> (r: Self)
        ensures
            r@ == Map::<Seq<u8>, Route>::empty(),
            r.root.route is None,
            r.root.children@ == Map::<u8, Box<BinTrieNode>>::empty(),
    {
        BinTrie { root: BinTrieNode::new() }
    }

    /// Routes the prefix `bin`, replacing any route it had.
    pub fn insert(&mut self, bin: &[u8], route: Route)
        ensures
            final(self)@ == old(self)@.insert(bin@, route),
    {
        let ghost r = route;
        insert_at(&mut self.root, bin, 0, route);
        assert(bin@.skip(0) =~= bin@);
        assert(self@ =~= old(self)@.insert(bin@, r));
    }

    /// The route of the longest prefix of `pan` that has one.
    pub fn find(&self, pan: &[u8]) -> (r: Option<&Route>)
        ensures
            route_of(r) == longest_match(self@, pan@),
    {
        let ghost routes = self@;
        let mut curr: &BinTrieNode = &self.root;
        let mut best: Option<&Route> = curr.route.as_ref();
        let mut i: usize = 0;
        proof {
            assert(pan@.take(0) =~= Seq::<u8>::empty());
            reveal_with_fuel(longest_match_upto, 2);
            assert(node_lookup(self.root, pan@.take(0)) == self.root.route);
        }
        while i < pan.len()
            invariant_except_break
                i <= pan@.len(),
                routes == self@,
                forall|s: Seq<u8>| #[trigger] node_lookup(*curr, s) == node_lookup(self.root, pan@.take(i as int) + s),
                route_of(best) == longest_match_upto(routes, pan@, i as int),
            ensures
                i <= pan@.len(),
                route_of(best) == longest_match(routes, pan@),
            decreases pan@.len() - i,
        {
            let b = pan[i];
            match curr.children.get(&b) {
                Some(child) => {
                    let next: &BinTrieNode = &**child;
                    proof {
                        assert forall|s: Seq<u8>| #[trigger] node_lookup(*next, s) == node_lookup(
                            self.root,
                            pan@.take(i + 1) + s,
                        ) by {
                            lemma_lookup_path(*curr, pan@.take(i as int), b, s);
                            assert(pan@.take(i as int) + (seq![b] + s) =~= pan@.take(i + 1) + s);
                        }
                        assert(node_lookup(*next, Seq::empty()) == node_lookup(self.root, pan@.take(i + 1) + Seq::empty()));
                        assert(pan@.take(i + 1) + Seq::<u8>::empty() =~= pan@.take(i + 1));
                    }
                    curr = next;
                    if curr.route.is_some() {
                        best = curr.route.as_ref();
                    }
                    i = i + 1;
                },
                None => {
                    proof {
                        assert forall|k: int| i < k <= pan@.len() implies !routes.contains_key(#[trigger] pan@.take(k)) by {
                            let s = pan@.subrange(i as int, k);
                            assert(pan@.take(k) =~= pan@.take(i as int) + s);
                            assert(s[0] == b);
                            assert(node_lookup(*curr, s) is None);
                        }
                        lemma_match_stable(routes, pan@, i as int, pan@.len() as int);
                    }
                    break;
                },
            }
        }
        proof {
            if i == pan@.len() {
                assert(pan@.take(i as int) =~= pan@);
            }
        }
        best
    }
}

/// Routes `bin.skip(i)` below `node`, replacing any route it had.
fn insert_at(node: &mut BinTrieNode, bin: &[u8], i: usize, route: Route)
    requires
        i <= bin@.len(),
    ensures
        forall|k: Seq<u8>| #[trigger]
            node_lookup(*final(node), k) == (if k == bin@.skip(i as int) {
                Some(route)
            } else {
                node_lookup(*old(node), k)
            }),
    decreases bin@.len() - i,
{
    if i == bin.len() {
        let ghost r = route;
        node.route = Some(route);
        assert forall|k: Seq<u8>| #[trigger]
            node_lookup(*node, k) == (if k == bin@.skip(i as int) { Some(r) } else { node_lookup(*old(node), k) }) by {
            if k.len() == 0 {
                assert(k =~= bin@.skip(i as int));
            }
        }
    } else {
        let b = bin[i];
        let ghost r = route;
        let ghost old_children = node.children@;
        let mut child: BinTrieNode = match node.children.remove(&b) {
            Some(c) => *c,
            None => BinTrieNode::new(),
        };
        let ghost child0 = child;
        insert_at(&mut child, bin, i + 1, route);
        node.children.insert(b, Box::new(child));
        assert forall|k: Seq<u8>| #[trigger]
            node_lookup(*node, k) == (if k == bin@.skip(i as int) { Some(r) } else { node_lookup(*old(node), k) }) by {
            let tail = bin@.skip(i as int);
            assert(tail[0] == b);
            assert(tail.drop_first() =~= bin@.skip(i + 1));
            assert(tail =~= seq![tail[0]] + tail.drop_first());
            if k.len() > 0 {
                assert(k =~= seq![k[0]] + k.drop_first());
                if k[0] == b {
                    assert(node.children@.contains_key(b));
                    assert(*node.children@[b] == child);
                    assert(node_lookup(*node, k) == node_lookup(child, k.drop_first()));
                    assert(k == tail <==> k.drop_first() == bin@.skip(i + 1));
                    if old_children.contains_key(b) {
                        assert(child0 == *old_children[b]);
                        assert(node_lookup(*old(node), k) == node_lookup(child0, k.drop_first()));
                    } else {
                        assert(node_lookup(child0, k.drop_first()) is None) by {
                            if k.drop_first().len() > 0 {
                                assert(!child0.children@.contains_key(k.drop_first()[0]));
                            }
                        }
                        assert(node_lookup(*old(node), k) is None);
                    }
                } else {
                    assert(k != tail);
                    assert(node.children@.contains_key(k[0]) == old_children.contains_key(k[0]));
                    if old_children.contains_key(k[0]) {
                        assert(node.children@[k[0]] == old_children[k[0]]);
                    }
                }
            } else {
                assert(k != tail);
            }
        }
    }
}

/// A route stored under `bin` is what a PAN beginning with `bin` finds, as
/// long as no longer prefix of the PAN is routed: the longest prefix wins.
pub proof fn law_insert_then_find(routes: Map<Seq<u8>, Route>, bin: Seq<u8>, route: Route, pan: Seq<u8>)
    requires
        bin.len() <= pan.len(),
        pan.take(bin.len() as int) == bin,
        forall|k: int| bin.len() < k <= pan.len() ==> !routes.contains_key(#[trigger] pan.take(k)),
    ensures
        longest_match(routes.insert(bin, route), pan) == Some(route),
{
    let m = routes.insert(bin, route);
    assert forall|k: int| bin.len() < k <= pan.len() implies !m.contains_key(#[trigger] pan.take(k)) by {
        assert(pan.take(k).len() != bin.len());
    }
    lemma_match_stable(m, pan, bin.len() as int, pan.len() as int);
}

/// A PAN that no routed prefix begins finds nothing.
pub proof fn law_find_unrouted(routes: Map<Seq<u8>, Route>, pan: Seq<u8>)
    requires
        forall|k: int| 0 <= k <= pan.len() ==> !routes.contains_key(#[trigger] pan.take(k)),
    ensures
        longest_match(routes, pan) is None,
{
    lemma_match_stable(routes, pan, 0, pan.len() as int);
    assert(!routes.contains_key(pan.take(0)));
    reveal_with_fuel(longest_match_upto, 2);
}

/// Whether `j` is where the longest routed prefix of `pan` ends: `pan.take(j)`
/// is routed and no longer prefix is.
pub open spec fn longest_at(routes: Map<Seq<u8>, Route>, pan: Seq<u8>, j: int) -> bool {
    &&& 0 <= j <= pan.len()
    &&& routes.contains_key(pan.take(j))
    &&& forall|k: int| j < k <= pan.len() ==> !routes.contains_key(#[trigger] pan.take(k))
}

proof fn lemma_upto_characterized(routes: Map<Seq<u8>, Route>, pan: Seq<u8>, i: int)
    requires
        0 <= i <= pan.len(),
    ensures
        match longest_match_upto(routes, pan, i) {
            Some(r) => exists|j: int| 0 <= j <= i && routes.contains_key(#[trigger] pan.take(j)) && routes[pan.take(j)] == r
                && forall|k: int| j < k <= i ==> !routes.contains_key(#[trigger] pan.take(k)),
            None => forall|k: int| 0 <= k <= i ==> !routes.contains_key(#[trigger] pan.take(k)),
        },
    decreases i,
{
    if !routes.contains_key(pan.take(i)) {
        if i == 0 {
            reveal_with_fuel(longest_match_upto, 2);
        } else {
            lemma_upto_characterized(routes, pan, i - 1);
        }
    }
}

/// The route a PAN finds is that of its longest routed prefix, and a PAN
/// finds nothing exactly when none of its prefixes (the empty one included)
/// is routed. With `insert` stated as adding one entry to the table, this
/// describes the table after any sequence of inserts.
pub proof fn law_find_is_longest_prefix(routes: Map<Seq<u8>, Route>, pan: Seq<u8>)
    ensures
        match longest_match(routes, pan) {
            Some(r) => exists|j: int| #[trigger] longest_at(routes, pan, j) && routes[pan.take(j)] == r,
            None => forall|k: int| 0 <= k <= pan.len() ==> !routes.contains_key(#[trigger] pan.take(k)),
        },
{
    lemma_upto_characterized(routes, pan, pan.len() as int);
    if longest_match(routes, pan) is Some {
        let j = choose|j: int| 0 <= j <= pan.len() && routes.contains_key(#[trigger] pan.take(j))
            && routes[pan.take(j)] == longest_match(routes, pan)->0 && forall|k: int| j < k <= pan.len()
            ==> !routes.contains_key(#[trigger] pan.take(k));
        assert(longest_at(routes, pan, j));
    }
}

/// Extending a PAN never loses a match: it can only reach a longer prefix.
pub proof fn law_extension_keeps_match(routes: Map<Seq<u8>, Route>, p: Seq<u8>, s: Seq<u8>)
    requires
        longest_match(routes, p) is Some,
    ensures
        longest_match(routes, p + s) is Some,
{
    law_find_is_longest_prefix(routes, p);
    let j = choose|j: int| #[trigger] longest_at(routes, p, j) && routes[p.take(j)] == longest_match(routes, p)->0;
    assert((p + s).take(j) =~= p.take(j));
    law_find_is_longest_prefix(routes, p + s);
    if longest_match(routes, p + s) is None {
        assert(!routes.contains_key((p + s).take(j)));
    }
}

proof fn lemma_upto_insert_elsewhere(routes: Map<Seq<u8>, Route>, bin: Seq<u8>, route: Route, pan: Seq<u8>, i: int)
    requires
        0 <= i <= pan.len(),
        forall|k: int| 0 <= k <= i ==> #[trigger] pan.take(k) != bin,
    ensures
        longest_match_upto(routes.insert(bin, route), pan, i) == longest_match_upto(routes, pan, i),
    decreases i,
{
    assert(pan.take(i) != bin);
    if i > 0 {
        lemma_upto_insert_elsewhere(routes, bin, route, pan, i - 1);
    } else {
        reveal_with_fuel(longest_match_upto, 2);
    }
}

/// Routing `bin` leaves alone every PAN that does not begin with `bin`, and
/// every PAN beginning with `bin` that already matched a longer prefix.
pub proof fn law_insert_keeps_other_lookups(routes: Map<Seq<u8>, Route>, bin: Seq<u8>, route: Route, pan: Seq<u8>)
    requires
        !(bin.len() <= pan.len() && pan.take(bin.len() as int) == bin)
            || exists|k: int| bin.len() < k <= pan.len() && routes.contains_key(#[trigger] pan.take(k)),
    ensures
        longest_match(routes.insert(bin, route), pan) == longest_match(routes, pan),
{
    let m = routes.insert(bin, route);
    if !(bin.len() <= pan.len() && pan.take(bin.len() as int) == bin) {
        assert forall|k: int| 0 <= k <= pan.len() implies #[trigger] pan.take(k) != bin by {
            if pan.take(k) == bin {
                assert(bin.len() == k);
            }
        }
        lemma_upto_insert_elsewhere(routes, bin, route, pan, pan.len() as int);
    } else {
        let k0 = choose|k: int| bin.len() < k <= pan.len() && routes.contains_key(#[trigger] pan.take(k));
        law_find_is_longest_prefix(routes, pan);
        assert(longest_match(routes, pan) is Some) by {
            if longest_match(routes, pan) is None {
                assert(!routes.contains_key(pan.take(k0)));
            }
        }
        let j = choose|j: int| #[trigger] longest_at(routes, pan, j) && routes[pan.take(j)] == longest_match(routes, pan)->0;
        assert(k0 <= j);
        assert(pan.take(j) != bin) by {
            assert(pan.take(j).len() == j);
        }
        assert forall|k: int| j < k <= pan.len() implies !m.contains_key(#[trigger] pan.take(k)) by {
            assert(pan.take(k).len() == k);
            assert(!routes.contains_key(pan.take(k)));
        }
        lemma_match_stable(m, pan, j, pan.len() as int);
        lemma_match_stable(routes, pan, j, pan.len() as int);
        assert(m.contains_key(pan.take(j)));
    }
}

/// `r` sends to the upstream node `node`, with no fail-over.
pub open spec fn routes_to_node(r: Route, node: Seq<char>) -> bool {
    &&& r.destination matches RouteDestination::ExternalNode(n) && n@ == node
    &&& r.failover_node is None
}

/// The routes the switch starts with, before any rules are published: card
/// numbers beginning with `4` go to the Visa node, those beginning with `5`
/// to the Mastercard node.
pub open spec fn is_startup_table(routes: Map<Seq<u8>, Route>) -> bool {
    &&& routes.dom() == set![seq![52u8], seq![53u8]]
    &&& routes_to_node(routes[seq![52u8]], "MockVisaNode"@)
    &&& routes_to_node(routes[seq![53u8]], "MockMastercardNode"@)
}

/// The routing table the switch starts with.
pub fn startup_route_table() -> (t: BinTrie)
    ensures
        is_startup_table(t@),
{
    let mut t = BinTrie::new();
    let visa = Route { destination: RouteDestination::ExternalNode(String::from_str("MockVisaNode")), failover_node: None };
    let mastercard = Route {
        destination: RouteDestination::ExternalNode(String::from_str("MockMastercardNode")),
        failover_node: None,
    };
    let four = crate::text::bytes_to_vec(&[52u8]);
    let five = crate::text::bytes_to_vec(&[53u8]);
    assert(four@ =~= seq![52u8]);
    assert(five@ =~= seq![53u8]);
    t.insert(four.as_slice(), visa);
    t.insert(five.as_slice(), mastercard);
    assert(t@.dom() =~= set![seq![52u8], seq![53u8]]);
    t
}

/// At start-up a card number beginning with `4` is routed to the Visa node
/// and one beginning with `5` to the Mastercard node.
pub proof fn law_startup_routes_by_network(routes: Map<Seq<u8>, Route>, pan: Seq<u8>)
    requires
        is_startup_table(routes),
        pan.len() > 0,
        pan[0] == 52u8 || pan[0] == 53u8,
    ensures
        longest_match(routes, pan) is Some,
        pan[0] == 52u8 ==> routes_to_node(longest_match(routes, pan)->0, "MockVisaNode"@),
        pan[0] == 53u8 ==> routes_to_node(longest_match(routes, pan)->0, "MockMastercardNode"@),
{
    assert forall|k: int| 1 < k <= pan.len() implies !routes.contains_key(#[trigger] pan.take(k)) by {
        assert(pan.take(k).len() == k);
        assert(!set![seq![52u8], seq![53u8]].contains(pan.take(k)));
    }
    lemma_match_stable(routes, pan, 1, pan.len() as int);
    assert(pan.take(1) =~= seq![pan[0]]);
    assert(routes.contains_key(pan.take(1)));
}

/// A published routing rule: a BIN prefix, `InternalCrdb` or an external
/// destination with its target node, and an optional fail-over node.
#[derive(Debug, Clone)]
pub struct RouteRow {
    pub bin_prefix: String,
    pub destination_type: String,
    pub target_node: Option<String>,
    pub failover_node: Option<String>,
}

/// The bytes `InternalCrdb`.
pub open spec fn internal_crdb_text() -> Seq<u8> {
    seq![73u8, 110u8, 116u8, 101u8, 114u8, 110u8, 97u8, 108u8, 67u8, 114u8, 100u8, 98u8]
}

/// The entry a rule makes in the table: its prefix's bytes and its route;
/// `None` for an external rule without a target node, which is skipped.
pub open spec fn route_of_row(row: RouteRow) -> Option<(Seq<u8>, Route)> {
    let key = vstd::utf8::encode_utf8(row.bin_prefix@);
    if vstd::utf8::encode_utf8(row.destination_type@) == internal_crdb_text() {
        Some((key, Route { destination: RouteDestination::InternalCrdb, failover_node: row.failover_node }))
    } else {
        match row.target_node {
            Some(t) => Some((key, Route { destination: RouteDestination::ExternalNode(t), failover_node: row.failover_node })),
            None => None,
        }
    }
}

/// The routes a list of rules compiles to, later rules replacing earlier ones.
pub open spec fn routes_of_rows(rows: Seq<RouteRow>) -> Map<Seq<u8>, Route>
    decreases rows.len(),
{
    if rows.len() == 0 {
        Map::empty()
    } else {
        let m = routes_of_rows(rows.drop_last());
        match route_of_row(rows.last()) {
            Some((k, r)) => m.insert(k, r),
            None => m,
        }
    }
}

proof fn lemma_last_row_wins(rows: Seq<RouteRow>, i: int, k: Seq<u8>, r: Route)
    requires
        0 <= i < rows.len(),
        route_of_row(rows[i]) == Some((k, r)),
        forall|j: int| i < j < rows.len() ==> vstd::utf8::encode_utf8(#[trigger] rows[j].bin_prefix@) != k,
    ensures
        routes_of_rows(rows).contains_key(k),
        routes_of_rows(rows)[k] == r,
    decreases rows.len(),
{
    if i < rows.len() - 1 {
        let last = rows.last();
        assert(rows.drop_last()[i] == rows[i]);
        assert forall|j: int| i < j < rows.drop_last().len() implies vstd::utf8::encode_utf8(
            #[trigger] rows.drop_last()[j].bin_prefix@,
        ) != k by {
            assert(rows.drop_last()[j] == rows[j]);
        }
        lemma_last_row_wins(rows.drop_last(), i, k, r);
        assert(vstd::utf8::encode_utf8(rows[rows.len() - 1].bin_prefix@) != k);
    }
}

/// A published rule for an external node, with no later rule for the same
/// prefix, routes its prefix to that node and keeps the rule's fail-over
/// node.
pub proof fn law_external_rule_compiled(rows: Seq<RouteRow>, i: int)
    requires
        0 <= i < rows.len(),
        rows[i].target_node is Some,
        vstd::utf8::encode_utf8(rows[i].destination_type@) != internal_crdb_text(),
        forall|j: int| i < j < rows.len() ==> vstd::utf8::encode_utf8(#[trigger] rows[j].bin_prefix@)
            != vstd::utf8::encode_utf8(rows[i].bin_prefix@),
    ensures
        ({
            let k = vstd::utf8::encode_utf8(rows[i].bin_prefix@);
            &&& routes_of_rows(rows).contains_key(k)
            &&& routes_of_rows(rows)[k].destination == RouteDestination::ExternalNode(rows[i].target_node->0)
            &&& routes_of_rows(rows)[k].failover_node == rows[i].failover_node
        }),
{
    let row = rows[i];
    let k = vstd::utf8::encode_utf8(row.bin_prefix@);
    lemma_last_row_wins(rows, i, k, (route_of_row(row)->0).1);
}

/// A published rule for the card database, with no later rule for the same
/// prefix, routes its prefix to the card database and keeps the rule's
/// fail-over node.
pub proof fn law_internal_rule_compiled(rows: Seq<RouteRow>, i: int)
    requires
        0 <= i < rows.len(),
        vstd::utf8::encode_utf8(rows[i].destination_type@) == internal_crdb_text(),
        forall|j: int| i < j < rows.len() ==> vstd::utf8::encode_utf8(#[trigger] rows[j].bin_prefix@)
            != vstd::utf8::encode_utf8(rows[i].bin_prefix@),
    ensures
        ({
            let k = vstd::utf8::encode_utf8(rows[i].bin_prefix@);
            &&& routes_of_rows(rows).contains_key(k)
            &&& routes_of_rows(rows)[k].destination == RouteDestination::InternalCrdb
            &&& routes_of_rows(rows)[k].failover_node == rows[i].failover_node
        }),
{
    let row = rows[i];
    let k = vstd::utf8::encode_utf8(row.bin_prefix@);
    lemma_last_row_wins(rows, i, k, (route_of_row(row)->0).1);
}

/// Compiles published routing rules into a routing table.
pub fn build_route_table(rows: Vec<RouteRow>) -> (t: BinTrie)
    ensures
        t@ == routes_of_rows(rows@),
{
    let mut trie = BinTrie::new();
    let mut rows = rows;
    let ghost all = rows@;
    let mut i: usize = 0;
    let n = rows.len();
    assert(rows@ =~= all.subrange(0, n as int));
    while i < n
        invariant
            n == all.len(),
            i <= n,
            rows@ =~= all.subrange(i as int, n as int),
            trie@ == routes_of_rows(all.subrange(0, i as int)),
        decreases n - i,
    {
        let row = rows.remove(0);
        assert(row == all[i as int]);
        let ghost r = row;
        let is_internal = crate::text::bytes_equal(
            crate::text::string_bytes(&row.destination_type),
            &[73u8, 110u8, 116u8, 101u8, 114u8, 110u8, 97u8, 108u8, 67u8, 114u8, 100u8, 98u8],
        );
        assert(all.subrange(0, i + 1).drop_last() =~= all.subrange(0, i as int));
        let RouteRow { bin_prefix, destination_type: _, target_node, failover_node } = row;
        if is_internal {
            trie.insert(crate::text::string_bytes(&bin_prefix), Route { destination: RouteDestination::InternalCrdb, failover_node });
        } else {
            match target_node {
                Some(t) => {
                    trie.insert(crate::text::string_bytes(&bin_prefix), Route { destination: RouteDestination::ExternalNode(t), failover_node });
                },
                None => {},
            }
        }
        i = i + 1;
    }
    assert(all.subrange(0, n as int) =~= all);
    trie
}

} // verus!
