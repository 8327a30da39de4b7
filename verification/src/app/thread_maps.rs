//! The concurrent maps in which threads are kept.
use vstd::prelude::*;

use crate::app::threads::ThreadContext;
use crate::maps;
use crate::time::Nanos;

verus! {

broadcast use {vstd::seq::group_seq_axioms, vstd::map::group_map_axioms, vstd::set::group_set_axioms};

// ---------------------------------------------------------------------------
// Times by channel
// ---------------------------------------------------------------------------

/// The map from channels to times.
pub type TimeMap = dashmap::DashMap<u64, u64>;

/// What the map from channels to times holds.
pub uninterp spec fn time_entries(map: TimeMap) -> Map<u64, u64>;

/// No times.
pub open spec fn no_times() -> Map<u64, u64> {
    Map::empty()
}

/// `DashMap::new` makes a map without entries.
#[verifier::external_body]
pub(crate) fn new_times() -> (r: TimeMap)
    ensures
        time_entries(r) == no_times(),
{
    dashmap::DashMap::new()
}

/// `DashMap::insert` sets the value of the key and leaves the other entries as they are.
#[verifier::external_body]
pub(crate) fn insert_time(map: &mut TimeMap, channel: u64, time: Nanos)
    ensures
        time_entries(*final(map)) == time_entries(*old(map)).insert(channel, time),
{
    map.insert(channel, time);
}

/// `DashMap::remove` takes the entry of the key out, if there is one, and no other.
#[verifier::external_body]
pub(crate) fn remove_time(map: &mut TimeMap, channel: u64)
    ensures
        time_entries(*final(map)) == time_entries(*old(map)).remove(channel),
{
    map.remove(&channel);
}

/// `DashMap::get` gives the value of the key, if it has one.
#[verifier::external_body]
pub(crate) fn get_time(map: &TimeMap, channel: u64) -> (r: Option<Nanos>)
    ensures
        match r {
            Some(time) => time_entries(*map).contains_key(channel) && time_entries(*map)[channel]
                == time,
            None => !time_entries(*map).contains_key(channel),
        },
{
    map.get(&channel).map(|time| *time)
}

/// The list holds every entry of the map once, in some order.
pub open spec fn lists_times(list: Seq<(u64, u64)>, map: Map<u64, u64>) -> bool {
    &&& forall|i: int|
        0 <= i < list.len() ==> map.contains_key(#[trigger] list[i].0) && map[list[i].0]
            == list[i].1
    &&& forall|i: int, j: int|
        0 <= i < list.len() && 0 <= j < list.len() && i != j ==> (#[trigger] list[i]).0 != (
        #[trigger] list[j]).0
    &&& forall|channel: u64| #[trigger]
        map.contains_key(channel) ==> exists|i: int|
            0 <= i < list.len() && (#[trigger] list[i]).0 == channel
}

/// `DashMap::iter` walks over every entry once. The order is that of the hasher, and nothing is
/// claimed of it.
#[verifier::external_body]
pub(crate) fn list_times(map: &TimeMap) -> (r: Vec<(u64, u64)>)
    ensures
        lists_times(r@, time_entries(*map)),
{
    map.iter().map(|entry| (*entry.key(), *entry.value())).collect()
}

/// A channel with the lowest time.
pub(crate) fn lowest_time(map: &TimeMap) -> (r: Option<u64>)
    ensures
        match r {
            Some(channel) => maps::is_lowest(time_entries(*map), channel),
            None => forall|channel: u64| !#[trigger] time_entries(*map).contains_key(channel),
        },
        time_entries(*map).dom().finite(),
{
    let list = list_times(map);
    let ghost entries = time_entries(*map);
    proof {
        let channels = list@.map_values(|entry: (u64, u64)| entry.0);
        assert forall|channel: u64| #[trigger] entries.dom().contains(
            channel,
        ) implies channels.to_set().contains(channel) by {
            assert(entries.contains_key(channel));
            let i = choose|i: int| 0 <= i < list@.len() && (#[trigger] list@[i]).0 == channel;
            assert(channels[i] == channel);
        }
        vstd::seq_lib::seq_to_set_is_finite(channels);
        vstd::set_lib::lemma_set_subset_finite(channels.to_set(), entries.dom());
    }
    if list.len() == 0 {
        return None;
    }
    let mut best: usize = 0;
    for i in 0..list.len()
        invariant
            best < list@.len(),
            forall|j: int| 0 <= j < i ==> list@[best as int].1 <= (#[trigger] list@[j]).1,
    {
        if list[i].1 < list[best].1 {
            best = i;
        }
    }
    let channel: u64 = list[best].0;
    assert forall|other: u64| #[trigger] entries.contains_key(other) implies entries[channel]
        <= entries[other] by {
        let j = choose|j: int| 0 <= j < list@.len() && (#[trigger] list@[j]).0 == other;
        assert(entries.contains_key(list@[j].0));
        assert(entries.contains_key(list@[best as int].0));
    }
    assert(entries.contains_key(list@[best as int].0));
    Some(channel)
}

// ---------------------------------------------------------------------------
// Contexts by channel
// ---------------------------------------------------------------------------

/// The map from channels to what is known of their threads.
pub type ContextMap = dashmap::DashMap<u64, ThreadContext>;

/// What the map from channels to contexts holds.
pub uninterp spec fn context_entries(map: ContextMap) -> Map<u64, ThreadContext>;

/// No contexts.
pub open spec fn no_contexts() -> Map<u64, ThreadContext> {
    Map::empty()
}

/// `DashMap::new` makes a map without entries.
#[verifier::external_body]
pub(crate) fn new_contexts() -> (r: ContextMap)
    ensures
        context_entries(r) == no_contexts(),
{
    dashmap::DashMap::new()
}

/// There are `n` contexts.
pub open spec fn counts_contexts(map: Map<u64, ThreadContext>, n: nat) -> bool {
    map.dom().finite() && map.dom().len() == n
}

/// `DashMap::len` counts the entries, of which there are finitely many.
#[verifier::external_body]
pub(crate) fn count_contexts(map: &ContextMap) -> (r: usize)
    ensures
        counts_contexts(context_entries(*map), r as nat),
{
    map.len()
}

/// `DashMap::contains_key` says whether the key has a value.
#[verifier::external_body]
pub(crate) fn has_context(map: &ContextMap, channel: u64) -> (r: bool)
    ensures
        r == context_entries(*map).contains_key(channel),
{
    map.contains_key(&channel)
}

/// `DashMap::insert` sets the value of the key and leaves the other entries as they are.
#[verifier::external_body]
pub(crate) fn insert_context(map: &mut ContextMap, channel: u64, context: ThreadContext)
    ensures
        context_entries(*final(map)) == context_entries(*old(map)).insert(channel, context),
{
    map.insert(channel, context);
}

/// `DashMap::remove` takes the entry of the key out, if there is one, and no other, and hands its
/// value out.
#[verifier::external_body]
pub(crate) fn take_context(map: &mut ContextMap, channel: u64) -> (r: Option<ThreadContext>)
    ensures
        context_entries(*final(map)) == context_entries(*old(map)).remove(channel),
        match r {
            Some(context) => context_entries(*old(map)).contains_key(channel) && context_entries(
                *old(map),
            )[channel] == context,
            None => !context_entries(*old(map)).contains_key(channel),
        },
{
    map.remove(&channel).map(|(_, context)| context)
}

/// `DashMap::get` gives the value of the key, if it has one; the transcript is copied out of it.
#[verifier::external_body]
pub(crate) fn get_transcript(map: &ContextMap, channel: u64) -> (r: Option<String>)
    ensures
        match r {
            Some(transcript) => context_entries(*map).contains_key(channel) && context_entries(
                *map,
            )[channel].transcript@ == transcript@,
            None => !context_entries(*map).contains_key(channel),
        },
{
    map.get(&channel).map(|context| context.transcript.clone())
}

} // verus!
