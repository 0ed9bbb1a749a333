use vstd::prelude::*;
use vstd::string::StrSliceExecFns;
use vstd::string::StringExecFns;

use std::collections::BTreeMap;

use crate::keys::format_key;
use crate::keys::key_text;
use crate::keys::lemma_key_round_trip;
use crate::keys::lemma_last_underscore;
use crate::keys::parse_key;
use crate::keys::parse_u64;
use crate::keys::find_last_underscore;
use crate::kv_store::KvStore;

verus! {

/// Which identifier a textual key designates in a store whose prefix is
/// `prefix`: the key must split as "<prefix>_<number>" at its last '_'.
pub open spec fn resolves_to(prefix: Seq<char>, key: Seq<char>) -> Option<u64> {
    match parse_key(key) {
        Some(pair) => if pair.0 == prefix {
            Some(pair.1)
        } else {
            None
        },
        None => None,
    }
}

/// A simple key-value store over a BTreeMap, with static prefix-checked
/// textual keys: each stored value is reachable under "<prefix>_<id>".
pub struct KvStoreBTreeImpl<V> {
    map: BTreeMap<u64, V>,
    next_id: u64,
    prefix: &'static str,
}

impl<V> KvStoreBTreeImpl<V> {
    /// The prefix every key of this store carries.
    pub closed spec fn prefix_view(&self) -> Seq<char> {
        self.prefix@
    }

    /// An empty store whose keys will carry `prefix`.
    pub fn new(prefix: &'static str) -> (r: Self)
        ensures
            r.wf(),
            r.can_insert(),
            r.contents() == Map::<u64, V>::empty(),
            r.fresh_id() == 0,
            r.prefix_view() == prefix@,
    {
        Self { map: BTreeMap::new(), next_id: 0, prefix }
    }

    /// Splits a textual key at its last '_' into the text before it and the
    /// number after it; `None` when there is no '_' or no valid number.
    pub fn parse_prefix_id(&self, id: &str) -> (r: Option<(String, u64)>)
        ensures
            (match (parse_key(id@), r) {
                (Some(pair), Some(out)) => out.0@ == pair.0 && out.1 == pair.1,
                (None, None) => true,
                _ => false,
            }),
    {
        let n = id.unicode_len();
        match find_last_underscore(id) {
            None => None,
            Some(pos) => {
                proof {
                    lemma_last_underscore(id@);
                }
                let num_part = id.substring_char(pos + 1, n);
                match parse_u64(num_part) {
                    None => None,
                    Some(v) => {
                        let prefix = String::from_str(id.substring_char(0, pos));
                        Some((prefix, v))
                    },
                }
            },
        }
    }
}

impl<V> KvStore<V> for KvStoreBTreeImpl<V> {
    /// Every identifier in use lies below the one handed out next.
    closed spec fn wf(&self) -> bool {
        forall|k: u64| #[trigger] self.map@.dom().contains(k) ==> k < self.next_id
    }

    open spec fn can_insert(&self) -> bool {
        self.fresh_id() < u64::MAX
    }

    closed spec fn contents(&self) -> Map<u64, V> {
        self.map@
    }

    open spec fn resolve(&self, key: Seq<char>) -> Option<u64> {
        resolves_to(self.prefix_view(), key)
    }

    closed spec fn fresh_id(&self) -> u64 {
        self.next_id
    }

    fn insert(&mut self, value: V) -> (key: String)
        ensures
            final(self).fresh_id() == old(self).fresh_id() + 1,
            final(self).prefix_view() == old(self).prefix_view(),
            key@ == key_text(old(self).prefix_view(), old(self).fresh_id()),
    {
        let id = self.next_id;
        self.next_id = id + 1;
        let key = format_key(self.prefix, id);
        self.map.insert(id, value);
        proof {
            lemma_key_round_trip(self.prefix@, id);
            assert forall|k: u64| #[trigger] self.map@.dom().contains(k) implies k
                < self.next_id by {
                if k != id {
                    assert(old(self).map@.dom().contains(k));
                }
            }
        }
        key
    }

    fn get(&self, id: &str) -> (r: Option<&V>) {
        match self.parse_prefix_id(id) {
            None => None,
            Some((prefix, id_num)) => {
                let own = String::from_str(self.prefix);
                if prefix == own {
                    self.map.get(&id_num)
                } else {
                    None
                }
            },
        }
    }

    fn remove(&mut self, id: &str) -> (r: bool) {
        match self.parse_prefix_id(id) {
            None => false,
            Some((prefix, id_num)) => {
                let own = String::from_str(self.prefix);
                if prefix == own {
                    let removed = self.map.remove(&id_num);
                    proof {
                        assert forall|k: u64| #[trigger] self.map@.dom().contains(k) implies k
                            < self.next_id by {
                            assert(old(self).map@.dom().contains(k));
                        }
                    }
                    match removed {
                        Some(_) => true,
                        None => false,
                    }
                } else {
                    false
                }
            },
        }
    }
}

} // verus!
