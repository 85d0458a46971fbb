//! The user's settings: a map from names to texts, kept in the `lapse/config.json`
//! file of the configuration directory.
use vstd::prelude::*;

use crate::map::OrderedMap;

verus! {

/// The user's settings.
#[derive(Debug, PartialEq, Eq)]
pub struct Config(pub OrderedMap<String>);

impl Default for Config {
    fn default() -> (c: Config)
        ensures
            c.0.view() == Map::<Seq<char>, String>::empty(),
    {
        Config(OrderedMap::new())
    }
}

impl Config {
    /// The setting stored under `key`, if any.
    pub fn get(&self, key: &str) -> (r: Option<&String>)
        ensures
            r is Some <==> self.0.view().dom().contains(key@),
            r matches Some(v) ==> *v == self.0.view()[key@],
    {
        self.0.get(key)
    }

    /// Stores `value` under `key`, in place of what was stored there.
    pub fn insert(&mut self, key: String, value: String)
        ensures
            final(self).0.view() == old(self).0.view().insert(key@, value),
    {
        self.0.insert(key, value);
    }

    /// The editor to open request files with: the setting `editor`, if any.
    pub fn editor(&self) -> (r: Option<String>)
        ensures
            r is Some <==> self.0.view().dom().contains(seq!['e', 'd', 'i', 't', 'o', 'r']),
            r matches Some(v) ==> v == self.0.view()[seq!['e', 'd', 'i', 't', 'o', 'r']],
    {
        proof {
            reveal_strlit("editor");
            assert("editor"@ =~= seq!['e', 'd', 'i', 't', 'o', 'r']);
        }
        match self.0.get("editor") {
            Some(v) => Some(v.clone()),
            None => None,
        }
    }
}

} // verus!
