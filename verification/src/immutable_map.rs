//! A map whose entries, once inserted, can never be changed.
use std::collections::HashMap;
use std::hash::Hash;
use vstd::prelude::*;
use vstd::std_specs::hash::obeys_key_model;

verus! {

broadcast use vstd::std_specs::hash::group_hash_axioms;

/// A map to which keys can be added but in which no value is ever replaced.
///
/// Its contents follow `HashMap`'s, so what the contracts state of them holds
/// for key types whose `==` and hash agree with equality of values
/// (`obeys_key_model`), as std's own integer types do.
pub struct ImmutableMap<K, V> {
    map: HashMap<K, V>,
}

/// What an insertion of `key` with `value` leaves of the contents `m`: the
/// same contents where `key` is present, and `key` added otherwise.
pub open spec fn inserted<K, V>(m: Map<K, V>, key: K, value: V) -> Map<K, V> {
    if m.contains_key(key) {
        m
    } else {
        m.insert(key, value)
    }
}

/// The first value written for a key is the one it keeps: once `key` is in
/// the contents `m`, an insertion of any key with any value leaves `key`
/// with the value it had.
pub proof fn lemma_first_write_wins<K, V>(m: Map<K, V>, key: K, other: K, value: V)
    requires
        m.contains_key(key),
    ensures
        inserted(m, other, value).contains_key(key),
        inserted(m, other, value)[key] == m[key],
{
}

impl<K, V> View for ImmutableMap<K, V> {
    type V = Map<K, V>;

    closed spec fn view(&self) -> Map<K, V> {
        self.map@
    }
}

impl<K: Eq + Hash, V> ImmutableMap<K, V> {
    /// An empty map.
    pub fn new() -> (res: Self)
        ensures
            res@ == Map::<K, V>::empty(),
    {
        Self { map: HashMap::new() }
    }

    /// Adds `key` with `value`, unless `key` is already present: then the map
    /// stays as it was and the insertion is refused.
    pub fn insert(&mut self, key: K, value: V) -> (res: Result<(), &str>)
        ensures
            obeys_key_model::<K>() ==> {
                &&& final(self)@ == inserted(old(self)@, key, value)
                &&& if old(self)@.contains_key(key) {
                    res matches Err(m) && m@ == "Cannot modify an existing key"@
                } else {
                    res is Ok
                }
            },
    {
        if self.map.contains_key(&key) {
            Err("Cannot modify an existing key")
        } else {
            self.map.insert(key, value);
            Ok(())
        }
    }

    /// The value stored under `key`, if any.
    pub fn get(&self, key: &K) -> (res: Option<&V>)
        ensures
            obeys_key_model::<K>() ==> match res {
                Some(v) => self@.contains_key(*key) && *v == self@[*key],
                None => !self@.contains_key(*key),
            },
    {
        self.map.get(key)
    }
}

} // verus!
