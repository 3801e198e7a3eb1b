//! Concurrent hash maps keyed by text (`dashmap::DashMap`): the declaration
//! of the outside type, and the text-to-text maps the switch keeps (STAN
//! translation, token vault, sanctions cache).
use vstd::prelude::*;
use dashmap::DashMap;

verus! {

#[verifier::external_type_specification]
#[verifier::external_body]
#[verifier::reject_recursive_types(K)]
#[verifier::reject_recursive_types(V)]
#[verifier::reject_recursive_types(S)]
pub struct ExDashMap<K, V, S>(DashMap<K, V, S>);

/// What a text-to-text map holds: the text of each key to the text of its value.
pub uninterp spec fn text_map(m: DashMap<String, String>) -> Map<Seq<char>, Seq<char>>;

/// The map with no entries.
pub open spec fn no_text() -> Map<Seq<char>, Seq<char>> {
    Map::empty()
}

/// `DashMap::new`: a map with no entries.
#[verifier::external_body]
pub(crate) fn text_map_new() -> (m: DashMap<String, String>)
    ensures
        text_map(m) == no_text(),
{
    DashMap::new()
}

/// `DashMap::insert`: afterwards `k` maps to `v`, whatever it mapped to before.
#[verifier::external_body]
pub(crate) fn text_map_insert(m: &mut DashMap<String, String>, k: String, v: String)
    ensures
        text_map(*final(m)) == text_map(*old(m)).insert(k@, v@),
{
    m.insert(k, v);
}

/// `DashMap::remove`: takes the entry of `k` out and hands back its value.
#[verifier::external_body]
pub(crate) fn text_map_remove(m: &mut DashMap<String, String>, k: &str) -> (r: Option<String>)
    ensures
        text_map(*final(m)) == text_map(*old(m)).remove(k@),
        r is Some <==> text_map(*old(m)).contains_key(k@),
        r matches Some(v) ==> text_map(*old(m))[k@] == v@,
{
    m.remove(k).map(|(_, v)| v)
}

/// `DashMap::get`: a copy of the value of `k`.
#[verifier::external_body]
pub(crate) fn text_map_get(m: &DashMap<String, String>, k: &str) -> (r: Option<String>)
    ensures
        r is Some <==> text_map(*m).contains_key(k@),
        r matches Some(v) ==> text_map(*m)[k@] == v@,
{
    m.get(k).map(|e| e.value().clone())
}

/// `DashMap::contains_key`.
#[verifier::external_body]
pub(crate) fn text_map_contains(m: &DashMap<String, String>, k: &str) -> (r: bool)
    ensures
        r == text_map(*m).contains_key(k@),
{
    m.contains_key(k)
}

} // verus!
