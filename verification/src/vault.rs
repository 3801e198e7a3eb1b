//! The token vault: device PANs issued to wallets, by the funding PAN each
//! stands for.
use vstd::prelude::*;
use vstd::string::StringExecFns;
use dashmap::DashMap;
use crate::tables::{text_map, text_map_get, text_map_insert, text_map_new};

verus! {

/// The token vault.
#[derive(Debug)]
pub struct TspVault {
    /// Device PAN, funding PAN.
    token_map: DashMap<String, String>,
}

impl View for TspVault {
    type V = Map<Seq<char>, Seq<char>>;

    closed spec fn view(&self) -> Map<Seq<char>, Seq<char>> {
        text_map(self.token_map)
    }
}

impl TspVault {
    /// The vault with its test token: `4000000000009999` stands for
    /// `4111222233334444`.
    pub fn new() -> (r: Self)
        ensures
            r@ == map!["4000000000009999"@ => "4111222233334444"@],
    {
        let mut token_map = text_map_new();
        text_map_insert(&mut token_map, String::from_str("4000000000009999"), String::from_str("4111222233334444"));
        let r = TspVault { token_map };
        assert(r@ =~= map!["4000000000009999"@ => "4111222233334444"@]);
        r
    }

    /// The funding PAN a device PAN stands for.
    pub fn detokenize(&self, dpan: &str) -> (r: Option<String>)
        ensures
            match r {
                Some(f) => self@.contains_key(dpan@) && self@[dpan@] == f@,
                None => !self@.contains_key(dpan@),
            },
    {
        text_map_get(&self.token_map, dpan)
    }
}

} // verus!
