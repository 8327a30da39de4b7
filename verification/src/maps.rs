//! Hash maps keyed by numbers.
use std::collections::HashMap;

use vstd::prelude::*;

verus! {

broadcast use {
    vstd::seq::group_seq_axioms,
    vstd::set::group_set_axioms,
    vstd::std_specs::hash::group_hash_axioms,
};

/// The keys of the map, each once, in some order.
pub(crate) fn keys_of<K: Copy, V>(map: &HashMap<K, V>) -> (r: Vec<K>)
    requires
        vstd::std_specs::hash::obeys_key_model::<K>(),
    ensures
        r@.no_duplicates(),
        forall|key: K| r@.contains(key) <==> #[trigger] map@.contains_key(key),
        r@.len() == map@.dom().len(),
{
    let mut keys: Vec<K> = Vec::new();
    for key in it: map.keys()
        invariant
            it.seq().no_duplicates(),
            it.seq().len() == map@.dom().len(),
            it.seq().unref().to_set() == map@.dom(),
            keys@.len() == it.index(),
            forall|i: int| 0 <= i < keys@.len() ==> keys@[i] == it.seq().unref()[i],
            keys@.len() == it.seq().len() ==> keys@.to_set() == map@.dom(),
    {
        keys.push(*key);
        assert(keys@.len() == it.seq().len() ==> keys@ =~= it.seq().unref());
    }
    assert forall|key: K| keys@.contains(key) <==> #[trigger] map@.contains_key(key) by {
        assert(keys@.to_set().contains(key) == map@.dom().contains(key));
    }
    keys
}

/// No key of the map has a lower value than `key`.
pub open spec fn is_lowest(map: Map<u64, u64>, key: u64) -> bool {
    map.contains_key(key) && forall|other: u64| #[trigger]
        map.contains_key(other) ==> map[key] <= map[other]
}

} // verus!
