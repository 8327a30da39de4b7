//! Which user speaks on which stream of a guild's voice connection.
use vstd::prelude::*;

verus! {

broadcast use {vstd::seq::group_seq_axioms, vstd::map::group_map_axioms, vstd::set::group_set_axioms};

/// The concurrent map of `dashmap`, opaque here.
#[verifier::external_type_specification]
#[verifier::external_body]
#[verifier::reject_recursive_types(K)]
#[verifier::reject_recursive_types(V)]
#[verifier::reject_recursive_types(S)]
pub struct ExDashMap<K, V, S>(dashmap::DashMap<K, V, S>);

/// A guild and the number of a stream in its voice connection.
pub type SsrcKey = (u64, u32);

/// The map from streams to users.
pub type SsrcMap = dashmap::DashMap<(u64, u32), u64>;

/// What the map from streams to users holds.
pub uninterp spec fn ssrc_entries(map: SsrcMap) -> Map<(u64, u32), u64>;

/// A map without entries.
pub open spec fn no_entries() -> Map<(u64, u32), u64> {
    Map::empty()
}

/// `DashMap::new` makes a map without entries.
#[verifier::external_body]
fn new_map() -> (r: SsrcMap)
    ensures
        ssrc_entries(r) == no_entries(),
{
    dashmap::DashMap::new()
}

/// `DashMap::insert` sets the value of the key and leaves the other entries as they are.
#[verifier::external_body]
fn insert_entry(map: &mut SsrcMap, key: SsrcKey, user: u64)
    ensures
        ssrc_entries(*final(map)) == ssrc_entries(*old(map)).insert(key, user),
{
    map.insert(key, user);
}

/// `DashMap::remove` takes the entry of the key out, if there is one, and no other.
#[verifier::external_body]
fn remove_entry(map: &mut SsrcMap, key: SsrcKey)
    ensures
        ssrc_entries(*final(map)) == ssrc_entries(*old(map)).remove(key),
{
    map.remove(&key);
}

/// `DashMap::get` gives the value of the key, if it has one.
#[verifier::external_body]
fn get_entry(map: &SsrcMap, key: SsrcKey) -> (r: Option<u64>)
    ensures
        match r {
            Some(user) => ssrc_entries(*map).contains_key(key) && ssrc_entries(*map)[key] == user,
            None => !ssrc_entries(*map).contains_key(key),
        },
{
    map.get(&key).map(|user| *user)
}

/// The list holds every entry of the map once, in some order.
pub open spec fn lists_entries(list: Seq<((u64, u32), u64)>, map: Map<(u64, u32), u64>) -> bool {
    &&& forall|i: int|
        0 <= i < list.len() ==> map.contains_key(#[trigger] list[i].0) && map[list[i].0]
            == list[i].1
    &&& forall|i: int, j: int|
        0 <= i < list.len() && 0 <= j < list.len() && i != j ==> (#[trigger] list[i]).0 != (
        #[trigger] list[j]).0
    &&& forall|key: (u64, u32)| #[trigger]
        map.contains_key(key) ==> exists|i: int| 0 <= i < list.len() && (#[trigger] list[i]).0 == key
}

/// `DashMap::iter` walks over every entry once. The order is that of the hasher, and nothing is
/// claimed of it.
#[verifier::external_body]
fn list_entries(map: &SsrcMap) -> (r: Vec<((u64, u32), u64)>)
    ensures
        lists_entries(r@, ssrc_entries(*map)),
{
    map.iter().map(|entry| (*entry.key(), *entry.value())).collect()
}

/// Which user speaks on which stream.
pub struct SsrcDirectory {
    map: SsrcMap,
}

impl View for SsrcDirectory {
    type V = Map<(u64, u32), u64>;

    closed spec fn view(&self) -> Map<(u64, u32), u64> {
        ssrc_entries(self.map)
    }
}

/// The directory `map` without the streams of `user` in `guild`.
pub open spec fn without_user(map: Map<(u64, u32), u64>, guild: u64, user: u64) -> Map<
    (u64, u32),
    u64,
> {
    map.remove_keys(Set::new(|key: (u64, u32)| key.0 == guild && map[key] == user))
}

/// The directory `map` without the streams of `guild`.
pub open spec fn without_guild(map: Map<(u64, u32), u64>, guild: u64) -> Map<(u64, u32), u64> {
    map.remove_keys(Set::new(|key: (u64, u32)| key.0 == guild))
}

impl SsrcDirectory {
    /// A directory without streams.
    pub fn new() -> (r: Self)
        ensures
            r@ == Map::<(u64, u32), u64>::empty(),
    {
        SsrcDirectory { map: new_map() }
    }

    /// The user of a stream, where one is known.
    pub fn user_of(&self, guild: u64, ssrc: u32) -> (r: Option<u64>)
        ensures
            match r {
                Some(user) => self@.contains_key((guild, ssrc)) && self@[(guild, ssrc)] == user,
                None => !self@.contains_key((guild, ssrc)),
            },
    {
        get_entry(&self.map, (guild, ssrc))
    }

    /// All streams with their users, in some order.
    pub fn entries(&self) -> (r: Vec<((u64, u32), u64)>)
        ensures
            lists_entries(r@, self@),
    {
        list_entries(&self.map)
    }

    /// Takes note of a speaking update. One that names no user changes nothing.
    pub fn speaking_update(&mut self, guild: u64, ssrc: u32, user: Option<u64>)
        ensures
            final(self)@ == match user {
                Some(user) => old(self)@.insert((guild, ssrc), user),
                None => old(self)@,
            },
    {
        if let Some(user) = user {
            insert_entry(&mut self.map, (guild, ssrc), user);
        }
    }

    /// Forgets the streams of a user who left the call.
    pub fn client_disconnect(&mut self, guild: u64, user: u64)
        ensures
            final(self)@ == without_user(old(self)@, guild, user),
    {
        let list = list_entries(&self.map);
        let ghost before = self@;
        assert(self@ =~= before.remove_keys(
            Set::new(|key: (u64, u32)| seen(list@, 0, key) && key.0 == guild && before[key] == user),
        ));
        for i in 0..list.len()
            invariant
                lists_entries(list@, before),
                self@ == before.remove_keys(
                    Set::new(|key: (u64, u32)| seen(list@, i as int, key) && key.0 == guild && before[key] == user),
                ),
        {
            let (key, owner) = list[i];
            proof {
                lemma_seen_next(list@, i as int);
            }
            if key.0 == guild && owner == user {
                remove_entry(&mut self.map, key);
            }
            assert(self@ =~= before.remove_keys(
                Set::new(|key: (u64, u32)| seen(list@, i + 1, key) && key.0 == guild && before[key] == user),
            ));
        }
        assert forall|key: (u64, u32)| before.contains_key(key) implies #[trigger] seen(
            list@,
            list@.len() as int,
            key,
        ) by {}
        assert(self@ =~= without_user(before, guild, user));
    }

    /// Forgets the streams of a guild.
    pub fn clear_guild(&mut self, guild: u64)
        ensures
            final(self)@ == without_guild(old(self)@, guild),
    {
        let list = list_entries(&self.map);
        let ghost before = self@;
        assert(self@ =~= before.remove_keys(
            Set::new(|key: (u64, u32)| seen(list@, 0, key) && key.0 == guild),
        ));
        for i in 0..list.len()
            invariant
                lists_entries(list@, before),
                self@ == before.remove_keys(
                    Set::new(|key: (u64, u32)| seen(list@, i as int, key) && key.0 == guild),
                ),
        {
            let (key, _owner) = list[i];
            proof {
                lemma_seen_next(list@, i as int);
            }
            if key.0 == guild {
                remove_entry(&mut self.map, key);
            }
            assert(self@ =~= before.remove_keys(
                Set::new(|key: (u64, u32)| seen(list@, i + 1, key) && key.0 == guild),
            ));
        }
        assert forall|key: (u64, u32)| before.contains_key(key) implies #[trigger] seen(
            list@,
            list@.len() as int,
            key,
        ) by {}
        assert(self@ =~= without_guild(before, guild));
    }
}

/// The key is among the first `n` of the list.
spec fn seen(list: Seq<((u64, u32), u64)>, n: int, key: (u64, u32)) -> bool {
    exists|j: int| 0 <= j < n && (#[trigger] list[j]).0 == key
}

proof fn lemma_seen_next(list: Seq<((u64, u32), u64)>, n: int)
    requires
        0 <= n < list.len(),
    ensures
        forall|key: (u64, u32)| #[trigger]
            seen(list, n + 1, key) == (seen(list, n, key) || key == list[n].0),
{
    assert forall|key: (u64, u32)| #[trigger]
        seen(list, n + 1, key) == (seen(list, n, key) || key == list[n].0) by {
        assert(list[n].0 == list[n].0);
    }
}

/// When a user leaves a guild, all streams of that user there are forgotten, and no other.
pub proof fn law_leaving_forgets_the_user(
    map: Map<(u64, u32), u64>,
    guild: u64,
    user: u64,
    other_guild: u64,
    ssrc: u32,
)
    ensures
        ({
            let after = without_user(map, guild, user);
            let key = (other_guild, ssrc);
            let gone = other_guild == guild && map[key] == user;
            &&& after.contains_key(key) <==> map.contains_key(key) && !gone
            &&& after.contains_key(key) ==> after[key] == map[key]
        }),
{
}

/// When a guild's call ends, all streams of that guild are forgotten, and no other.
pub proof fn law_ending_forgets_the_guild(
    map: Map<(u64, u32), u64>,
    guild: u64,
    other_guild: u64,
    ssrc: u32,
)
    ensures
        ({
            let after = without_guild(map, guild);
            let key = (other_guild, ssrc);
            &&& after.contains_key(key) <==> map.contains_key(key) && other_guild != guild
            &&& after.contains_key(key) ==> after[key] == map[key]
        }),
{
}

} // verus!
