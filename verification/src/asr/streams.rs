//! The audio of all calls, in a concurrent map by guild and user.
use std::collections::HashMap;

use vstd::prelude::*;

use crate::asr::audio::IngestParams;
use crate::asr::pipeline;
use crate::asr::pipeline::UserAudioBuffer;
use crate::asr::tick;
use crate::asr::tick::{CallAudio, DetachedAudioBuffer, ProcessedSource, TickOutcome};
use crate::time::Nanos;

verus! {

broadcast use {
    vstd::seq::group_seq_axioms,
    vstd::set::group_set_axioms,
    vstd::map::group_map_axioms,
    vstd::std_specs::hash::group_hash_axioms,
};

/// A sample of audio, as the bits of the number that it is.
pub type Sample = u32;

/// A guild and a user of its call.
pub type StreamKey = (u64, u64);

/// The map from the users of calls to their audio.
pub type StreamMap = dashmap::DashMap<(u64, u64), UserAudioBuffer<u32>>;

/// What the map from users to audio holds.
pub uninterp spec fn stream_entries(map: StreamMap) -> Map<(u64, u64), UserAudioBuffer<u32>>;

/// No audio.
pub open spec fn no_streams() -> Map<(u64, u64), UserAudioBuffer<u32>> {
    Map::empty()
}

/// `DashMap::new` makes a map without entries.
#[verifier::external_body]
fn new_streams() -> (r: StreamMap)
    ensures
        stream_entries(r) == no_streams(),
{
    dashmap::DashMap::new()
}

/// `DashMap::insert` sets the value of the key and leaves the other entries as they are.
#[verifier::external_body]
fn insert_stream(map: &mut StreamMap, key: StreamKey, buffer: UserAudioBuffer<u32>)
    ensures
        stream_entries(*final(map)) == stream_entries(*old(map)).insert(key, buffer),
{
    map.insert(key, buffer);
}

/// `DashMap::remove` takes the entry of the key out, if there is one, and no other, and hands its
/// value out.
#[verifier::external_body]
fn take_stream(map: &mut StreamMap, key: StreamKey) -> (r: Option<UserAudioBuffer<u32>>)
    ensures
        stream_entries(*final(map)) == stream_entries(*old(map)).remove(key),
        match r {
            Some(buffer) => stream_entries(*old(map)).contains_key(key) && stream_entries(
                *old(map),
            )[key] == buffer,
            None => !stream_entries(*old(map)).contains_key(key),
        },
{
    map.remove(&key).map(|(_, buffer)| buffer)
}

/// `DashMap::contains_key` says whether the key has a value.
#[verifier::external_body]
fn has_stream(map: &StreamMap, key: StreamKey) -> (r: bool)
    ensures
        r == stream_entries(*map).contains_key(key),
{
    map.contains_key(&key)
}

/// The list holds every key of the map once, in some order, with the number of its samples.
pub open spec fn lists_streams(
    list: Seq<((u64, u64), usize)>,
    map: Map<(u64, u64), UserAudioBuffer<u32>>,
) -> bool {
    &&& forall|i: int|
        0 <= i < list.len() ==> map.contains_key(#[trigger] list[i].0)
            && map[list[i].0].pcm@.len() == list[i].1
    &&& forall|i: int, j: int|
        0 <= i < list.len() && 0 <= j < list.len() && i != j ==> (#[trigger] list[i]).0 != (
        #[trigger] list[j]).0
    &&& forall|key: (u64, u64)| #[trigger]
        map.contains_key(key) ==> exists|i: int| 0 <= i < list.len() && (#[trigger] list[i]).0 == key
}

/// `DashMap::iter` walks over every entry once; of each the key and the number of samples are
/// taken. The order is that of the hasher, and nothing is claimed of it.
#[verifier::external_body]
fn list_streams(map: &StreamMap) -> (r: Vec<((u64, u64), usize)>)
    ensures
        lists_streams(r@, stream_entries(*map)),
{
    map.iter().map(|entry| (*entry.key(), entry.value().pcm.len())).collect()
}

/// The audio of all calls.
pub struct Streams {
    buffers: StreamMap,
    announced: HashMap<u64, bool>,
}

/// What `Streams` hold: the audio of each guild's users, and of which guilds' calls the start has
/// been announced.
#[verifier::ext_equal]
pub ghost struct StreamsView {
    pub buffers: Map<(u64, u64), pipeline::BufferView<u32>>,
    pub announced: Map<u64, bool>,
}

impl View for Streams {
    type V = StreamsView;

    closed spec fn view(&self) -> StreamsView {
        StreamsView {
            buffers: stream_entries(self.buffers).map_values(
                |buffer: UserAudioBuffer<u32>| buffer@,
            ),
            announced: self.announced@,
        }
    }
}

/// A call without audio, of which nothing has been announced.
pub open spec fn fresh_call() -> tick::CallView<u32> {
    tick::CallView { streams: Map::empty(), started: false }
}

/// The audio of a guild's call.
pub open spec fn call_of(view: StreamsView, guild: u64) -> tick::CallView<u32> {
    tick::CallView {
        streams: Map::new(
            |user: u64| view.buffers.contains_key((guild, user)),
            |user: u64| view.buffers[(guild, user)],
        ),
        started: view.announced.contains_key(guild) && view.announced[guild],
    }
}

/// The calls of all guilds but `guild` are the same.
pub open spec fn others_same(before: StreamsView, after: StreamsView, guild: u64) -> bool {
    forall|other: u64| other != guild ==> #[trigger] call_of(after, other) == call_of(before, other)
}

/// No audio of any call, and nothing announced.
pub open spec fn no_calls() -> StreamsView {
    StreamsView { buffers: Map::empty(), announced: Map::empty() }
}

/// A key stands among the first `n` of a list.
spec fn listed_before(list: Seq<((u64, u64), usize)>, n: int, key: (u64, u64)) -> bool {
    exists|j: int| 0 <= j < n && (#[trigger] list[j]).0 == key
}

/// The audio without that of some users of a guild.
spec fn without_users(
    buffers: Map<(u64, u64), pipeline::BufferView<u32>>,
    guild: u64,
    users: Set<u64>,
) -> Map<(u64, u64), pipeline::BufferView<u32>> {
    buffers.remove_keys(Set::new(|key: (u64, u64)| key.0 == guild && users.contains(key.1)))
}

/// What differs in the audio of one guild's users leaves the other guilds' calls alone.
proof fn lemma_others_same(before: StreamsView, after: StreamsView, guild: u64)
    requires
        forall|key: (u64, u64)|
            key.0 != guild ==> #[trigger] after.buffers.contains_key(key)
                == before.buffers.contains_key(key),
        forall|key: (u64, u64)|
            key.0 != guild && before.buffers.contains_key(key) ==> #[trigger] after.buffers[key]
                == before.buffers[key],
        forall|other: u64|
            other != guild ==> #[trigger] after.announced.contains_key(other)
                == before.announced.contains_key(other),
        forall|other: u64|
            other != guild && before.announced.contains_key(other)
                ==> #[trigger] after.announced[other] == before.announced[other],
    ensures
        others_same(before, after, guild),
{
    assert forall|other: u64| other != guild implies #[trigger] call_of(after, other) == call_of(
        before,
        other,
    ) by {
        let (a, b) = (call_of(after, other), call_of(before, other));
        assert forall|user: u64| #[trigger] a.streams.contains_key(user)
            == b.streams.contains_key(user) by {
            assert(after.buffers.contains_key((other, user)) == before.buffers.contains_key(
                (other, user),
            ));
        }
        assert forall|user: u64| #[trigger] a.streams.contains_key(user) implies a.streams[user]
            == b.streams[user] by {
            assert(after.buffers[(other, user)] == before.buffers[(other, user)]);
        }
        assert(a.streams =~= b.streams);
        assert(after.announced.contains_key(other) == before.announced.contains_key(other));
        if before.announced.contains_key(other) {
            assert(after.announced[other] == before.announced[other]);
        }
    }
}

impl Streams {
    /// No calls.
    pub fn new() -> (r: Self)
        ensures
            r@ == no_calls(),
    {
        let r = Streams { buffers: new_streams(), announced: HashMap::new() };
        assert(r@.buffers =~= Map::empty());
        assert(r@.announced =~= Map::empty());
        r
    }

    fn users_of(&self, guild: u64) -> (r: Vec<u64>)
        ensures
            r@.no_duplicates(),
            forall|user: u64| r@.contains(user) <==> #[trigger]
                self@.buffers.contains_key((guild, user)),
    {
        let list = list_streams(&self.buffers);
        let ghost entries = stream_entries(self.buffers);
        let mut users: Vec<u64> = Vec::new();
        for i in 0..list.len()
            invariant
                entries == stream_entries(self.buffers),
                lists_streams(list@, entries),
                users@.no_duplicates(),
                forall|k: int|
                    0 <= k < users@.len() ==> listed_before(
                        list@,
                        i as int,
                        (guild, #[trigger] users@[k]),
                    ),
                forall|j: int|
                    0 <= j < i && (#[trigger] list@[j]).0.0 == guild ==> users@.contains(
                        list@[j].0.1,
                    ),
        {
            let ghost before = users@;
            if list[i].0.0 == guild {
                let user: u64 = list[i].0.1;
                assert(!before.contains(user)) by {
                    if before.contains(user) {
                        let k = choose|k: int| 0 <= k < before.len() && before[k] == user;
                        assert(listed_before(list@, i as int, (guild, before[k])));
                        let j = choose|j: int|
                            0 <= j < i && (#[trigger] list@[j]).0 == (guild, before[k]);
                        assert(list@[j].0 == list@[i as int].0);
                    }
                }
                users.push(user);
                assert(users@[users@.len() - 1] == user);
                assert forall|k: int| 0 <= k < users@.len() implies listed_before(
                    list@,
                    i + 1,
                    (guild, #[trigger] users@[k]),
                ) by {
                    if k < before.len() {
                        assert(users@[k] == before[k]);
                        assert(listed_before(list@, i as int, (guild, before[k])));
                        let j = choose|j: int|
                            0 <= j < i && (#[trigger] list@[j]).0 == (guild, before[k]);
                        assert(list@[j].0 == (guild, users@[k]));
                    } else {
                        assert(list@[i as int].0 == (guild, users@[k]));
                    }
                }
                assert forall|j: int|
                    0 <= j < i + 1 && (#[trigger] list@[j]).0.0 == guild implies users@.contains(
                    list@[j].0.1,
                ) by {
                    if j < i {
                        assert(before.contains(list@[j].0.1));
                        let k = choose|k: int|
                            0 <= k < before.len() && before[k] == list@[j].0.1;
                        assert(users@[k] == list@[j].0.1);
                    }
                }
            } else {
                assert forall|k: int| 0 <= k < users@.len() implies listed_before(
                    list@,
                    i + 1,
                    (guild, #[trigger] users@[k]),
                ) by {
                    assert(listed_before(list@, i as int, (guild, users@[k])));
                    let j = choose|j: int|
                        0 <= j < i && (#[trigger] list@[j]).0 == (guild, users@[k]);
                    assert(list@[j].0 == (guild, users@[k]));
                }
            }
        }
        assert forall|user: u64| users@.contains(user) <==> #[trigger] self@.buffers.contains_key(
            (guild, user),
        ) by {
            if users@.contains(user) {
                let k = choose|k: int| 0 <= k < users@.len() && users@[k] == user;
                assert(listed_before(list@, list@.len() as int, (guild, users@[k])));
                let j = choose|j: int|
                    0 <= j < list@.len() && (#[trigger] list@[j]).0 == (guild, users@[k]);
                assert(entries.contains_key(list@[j].0));
            }
            if self@.buffers.contains_key((guild, user)) {
                assert(entries.contains_key((guild, user)));
                let j = choose|j: int|
                    0 <= j < list@.len() && (#[trigger] list@[j]).0 == (guild, user);
                assert(users@.contains(list@[j].0.1));
            }
        }
        users
    }

    fn take_call(&mut self, guild: u64) -> (r: CallAudio<u32>)
        ensures
            r@ == call_of(old(self)@, guild),
            final(self)@.announced == old(self)@.announced,
            forall|user: u64| !#[trigger] final(self)@.buffers.contains_key((guild, user)),
            others_same(old(self)@, final(self)@, guild),
    {
        let started = match self.announced.get(&guild) {
            Some(announced) => *announced,
            None => false,
        };
        let users = self.users_of(guild);
        let mut call: CallAudio<u32> = CallAudio::begun(started);
        let ghost start = self@;
        let ghost mut done: Set<u64> = Set::empty();
        assert(self@.buffers =~= without_users(start.buffers, guild, done));
        for i in 0..users.len()
            invariant
                users@.no_duplicates(),
                start == old(self)@,
                self@.announced == start.announced,
                forall|user: u64| users@.contains(user) <==> #[trigger]
                    start.buffers.contains_key((guild, user)),
                forall|user: u64| #[trigger]
                    done.contains(user) <==> exists|j: int|
                        0 <= j < i && #[trigger] users@[j] == user,
                self@.buffers == without_users(start.buffers, guild, done),
                call@.started == started,
                call@.streams.dom() == done,
                forall|user: u64| #[trigger]
                    call@.streams.contains_key(user) ==> call@.streams[user]
                        == start.buffers[(guild, user)],
        {
            let user: u64 = users[i];
            let ghost here = self@;
            let ghost earlier = done;
            assert(users@.contains(user));
            assert(start.buffers.contains_key((guild, user)));
            assert(!done.contains(user)) by {
                if done.contains(user) {
                    let j = choose|j: int| 0 <= j < i && #[trigger] users@[j] == user;
                    assert(users@[j] == users@[i as int]);
                }
            }
            assert(here.buffers.contains_key((guild, user)));
            assert(stream_entries(self.buffers).contains_key((guild, user)));
            if let Some(buffer) = take_stream(&mut self.buffers, (guild, user)) {
                assert(buffer@ == here.buffers[(guild, user)]);
                call.insert(user, buffer);
            }
            proof {
                done = done.insert(user);
                assert(self@.buffers =~= here.buffers.remove((guild, user)));
                assert(self@.buffers =~= without_users(start.buffers, guild, done));
                assert(call@.streams.dom() =~= done);
                assert forall|u: u64| #[trigger] done.contains(u) <==> exists|j: int|
                    0 <= j < i + 1 && #[trigger] users@[j] == u by {
                    if earlier.contains(u) {
                        let j = choose|j: int| 0 <= j < i && #[trigger] users@[j] == u;
                        assert(users@[j] == u);
                    }
                    if u == user {
                        assert(users@[i as int] == u);
                    }
                }
            }
        }
        proof {
            let whole = call_of(start, guild);
            assert forall|user: u64| #[trigger] call@.streams.contains_key(user)
                == whole.streams.contains_key(user) by {
                if whole.streams.contains_key(user) {
                    assert(start.buffers.contains_key((guild, user)));
                    assert(users@.contains(user));
                    let j = choose|j: int| 0 <= j < users@.len() && users@[j] == user;
                    assert(users@[j] == user);
                    assert(done.contains(user));
                }
                if done.contains(user) {
                    let j = choose|j: int| 0 <= j < users@.len() && #[trigger] users@[j] == user;
                    assert(users@.contains(user));
                    assert(start.buffers.contains_key((guild, user)));
                }
            }
            assert(call@.streams =~= whole.streams);
            assert forall|user: u64| !#[trigger] self@.buffers.contains_key((guild, user)) by {
                if self@.buffers.contains_key((guild, user)) {
                    assert(start.buffers.contains_key((guild, user)));
                    assert(whole.streams.contains_key(user));
                    assert(done.contains(user));
                }
            }
            lemma_others_same(start, self@, guild);
        }
        call
    }

    fn put_call(&mut self, guild: u64, call: CallAudio<u32>)
        requires
            forall|user: u64| !#[trigger] old(self)@.buffers.contains_key((guild, user)),
        ensures
            call_of(final(self)@, guild) == call@,
            others_same(old(self)@, final(self)@, guild),
    {
        let mut call = call;
        let ghost whole = call@;
        let ghost start = self@;
        let users = call.users();
        let started = call.is_started();
        for i in 0..users.len()
            invariant
                users@.no_duplicates(),
                start == old(self)@,
                whole.started == started,
                forall|user: u64| users@.contains(user) <==> #[trigger]
                    whole.streams.contains_key(user),
                forall|user: u64| !#[trigger] start.buffers.contains_key((guild, user)),
                self@.announced == start.announced,
                forall|key: (u64, u64)|
                    key.0 != guild ==> #[trigger] self@.buffers.contains_key(key)
                        == start.buffers.contains_key(key),
                forall|key: (u64, u64)|
                    key.0 != guild ==> #[trigger] self@.buffers[key] == start.buffers[key],
                forall|user: u64| #[trigger]
                    self@.buffers.contains_key((guild, user)) <==> exists|j: int|
                        0 <= j < i && #[trigger] users@[j] == user,
                forall|user: u64| #[trigger]
                    self@.buffers.contains_key((guild, user)) ==> self@.buffers[(guild, user)]
                        == whole.streams[user],
                forall|j: int|
                    i <= j < users@.len() ==> call@.streams.contains_key(#[trigger] users@[j])
                        && call@.streams[users@[j]] == whole.streams[users@[j]],
        {
            let user: u64 = users[i];
            let ghost here = self@;
            assert(call@.streams.contains_key(users@[i as int]));
            let buffer = call.take_buffer(user);
            let ghost view = buffer@;
            insert_stream(&mut self.buffers, (guild, user), buffer);
            assert(self@.buffers =~= here.buffers.insert((guild, user), view));
            assert forall|u: u64| #[trigger] self@.buffers.contains_key((guild, u)) <==> exists|
                j: int,
            |
                0 <= j < i + 1 && #[trigger] users@[j] == u by {
                if here.buffers.contains_key((guild, u)) {
                    let j = choose|j: int| 0 <= j < i && #[trigger] users@[j] == u;
                    assert(users@[j] == u);
                }
                if u == user {
                    assert(users@[i as int] == u);
                }
            }
        }
        let ghost filled = self@;
        self.announced.insert(guild, started);
        proof {
            assert(self@.buffers == filled.buffers);
            let after = call_of(self@, guild);
            assert forall|user: u64| #[trigger] after.streams.contains_key(user)
                == whole.streams.contains_key(user) by {
                if whole.streams.contains_key(user) {
                    assert(users@.contains(user));
                    let j = choose|j: int| 0 <= j < users@.len() && users@[j] == user;
                    assert(users@[j] == user);
                    assert(self@.buffers.contains_key((guild, user)));
                }
                if after.streams.contains_key(user) {
                    assert(self@.buffers.contains_key((guild, user)));
                    let j = choose|j: int| 0 <= j < users@.len() && #[trigger] users@[j] == user;
                    assert(users@.contains(user));
                }
            }
            assert(after.streams =~= whole.streams);
            lemma_others_same(start, self@, guild);
        }
    }

    /// Whether a user of a guild's call has a buffer.
    pub fn contains_key(&self, guild: u64, user: u64) -> (r: bool)
        ensures
            r == call_of(self@, guild).streams.contains_key(user),
    {
        has_stream(&self.buffers, (guild, user))
    }

    /// Sets the buffer of a user of a guild's call.
    pub fn insert(&mut self, guild: u64, user: u64, buffer: UserAudioBuffer<u32>)
        ensures
            call_of(final(self)@, guild) == (tick::CallView {
                streams: call_of(old(self)@, guild).streams.insert(user, buffer@),
                ..call_of(old(self)@, guild)
            }),
            others_same(old(self)@, final(self)@, guild),
    {
        let ghost view = buffer@;
        insert_stream(&mut self.buffers, (guild, user), buffer);
        assert(self@.buffers =~= old(self)@.buffers.insert((guild, user), view));
        assert(call_of(self@, guild).streams =~= call_of(old(self)@, guild).streams.insert(
            user,
            view,
        ));
        proof {
            lemma_others_same(old(self)@, self@, guild);
        }
    }

    /// Whether any user of a guild's call has audio that has not been sent to the decoder.
    pub fn has_audio(&self, guild: u64) -> (r: bool)
        ensures
            r == exists|user: u64| #[trigger]
                call_of(self@, guild).streams.contains_key(user) && call_of(
                    self@,
                    guild,
                ).streams[user].pcm.len() > 0,
    {
        let list = list_streams(&self.buffers);
        let ghost entries = stream_entries(self.buffers);
        let ghost call = call_of(self@, guild);
        for i in 0..list.len()
            invariant
                entries == stream_entries(self.buffers),
                call == call_of(self@, guild),
                lists_streams(list@, entries),
                forall|j: int|
                    0 <= j < i && (#[trigger] list@[j]).0.0 == guild ==> list@[j].1 == 0,
        {
            if list[i].0.0 == guild && list[i].1 > 0 {
                assert(entries.contains_key(list@[i as int].0));
                assert(list@[i as int].0 == (guild, list@[i as int].0.1));
                assert(call.streams.contains_key(list@[i as int].0.1));
                return true;
            }
        }
        assert forall|user: u64| #[trigger] call.streams.contains_key(
            user,
        ) implies call.streams[user].pcm.len() == 0 by {
            assert(entries.contains_key((guild, user)));
            let j = choose|j: int| 0 <= j < list@.len() && (#[trigger] list@[j]).0 == (guild, user);
            assert(entries.contains_key(list@[j].0));
        }
        false
    }

    /// Takes the cleaned audio of one of a guild's ticks in. The calls of other guilds are left
    /// alone.
    pub fn ingest_tick<F: Copy + Fn(&[u32]) -> u32, G: Copy + Fn(u64, &[u32]) -> bool>(
        &mut self,
        guild: u64,
        sources: Vec<ProcessedSource<u32>>,
        params: IngestParams,
        now: Nanos,
        loudness: F,
        below_floor: G,
    ) -> (r: TickOutcome<u32>)
        requires
            forall|w: &[u32]| #[trigger] call_requires(loudness, (w,)),
            forall|user: u64, w: &[u32]| #[trigger] call_requires(below_floor, (user, w)),
        ensures
            exists|end: tick::TickState<u32>|
                {
                    &&& #[trigger] tick::tick_leads(
                        call_of(old(self)@, guild),
                        sources@,
                        end,
                        params,
                        now,
                        loudness,
                        below_floor,
                    )
                    &&& call_of(final(self)@, guild) == end.call
                    &&& tick::request_views(r.requests@) == end.requests
                    &&& r.gated == end.gated
                    &&& r.resample_errors == end.resample_errors
                    &&& r.announce == end.announce
                },
            others_same(old(self)@, final(self)@, guild),
    {
        let mut call = self.take_call(guild);
        let ghost taken = self@;
        let r = call.ingest_tick(sources, params, now, loudness, below_floor);
        self.put_call(guild, call);
        proof {
            lemma_same_twice(old(self)@, taken, self@, guild);
        }
        r
    }

    /// Takes all buffers out of a guild's call, and hands those out that hold audio. The calls of
    /// other guilds are left alone.
    pub fn detach_audio_buffers(&mut self, guild: u64) -> (r: Vec<DetachedAudioBuffer<u32>>)
        ensures
            call_of(final(self)@, guild) == (tick::CallView {
                streams: Map::empty(),
                ..call_of(old(self)@, guild)
            }),
            others_same(old(self)@, final(self)@, guild),
            tick::lists_buffers(r@, call_of(old(self)@, guild).streams),
    {
        let mut call = self.take_call(guild);
        let ghost taken = self@;
        let r = call.detach_audio_buffers();
        self.put_call(guild, call);
        proof {
            lemma_same_twice(old(self)@, taken, self@, guild);
        }
        r
    }

    /// Drops a guild's call.
    pub fn remove_guild(&mut self, guild: u64)
        ensures
            call_of(final(self)@, guild) == fresh_call(),
            others_same(old(self)@, final(self)@, guild),
    {
        let _dropped = self.take_call(guild);
        let ghost taken = self@;
        self.announced.remove(&guild);
        assert(self@.buffers == taken.buffers);
        assert(call_of(self@, guild).streams =~= Map::empty());
        proof {
            lemma_others_same(taken, self@, guild);
            lemma_same_twice(old(self)@, taken, self@, guild);
        }
    }
}

proof fn lemma_same_twice(first: StreamsView, second: StreamsView, third: StreamsView, guild: u64)
    requires
        others_same(first, second, guild),
        others_same(second, third, guild),
    ensures
        others_same(first, third, guild),
{
    assert forall|other: u64| other != guild implies #[trigger] call_of(third, other) == call_of(
        first,
        other,
    ) by {
        assert(call_of(third, other) == call_of(second, other));
        assert(call_of(second, other) == call_of(first, other));
    }
}

/// The calls of two guilds hold nothing in common: what is held for a user of a guild is in that
/// guild's call and in no other, and a call has started exactly where its start was announced.
pub proof fn law_calls_are_kept_apart(
    view: StreamsView,
    guild: u64,
    other: u64,
    user: u64,
    buffer: pipeline::BufferView<u32>,
)
    ensures
        call_of(view, guild).streams.contains_key(user) <==> view.buffers.contains_key(
            (guild, user),
        ),
        view.buffers.contains_key((guild, user)) ==> call_of(view, guild).streams[user]
            == view.buffers[(guild, user)],
        call_of(view, guild).started <==> view.announced.contains_key(guild)
            && view.announced[guild],
        ({
            let after = StreamsView {
                buffers: view.buffers.insert((guild, user), buffer),
                ..view
            };
            &&& call_of(after, guild).streams.contains_key(user)
            &&& call_of(after, guild).streams[user] == buffer
            &&& other != guild ==> call_of(after, other) == call_of(view, other)
            &&& others_same(view, after, guild)
        }),
        others_same(
            view,
            StreamsView {
                buffers: view.buffers.insert((guild, user), buffer),
                ..view
            },
            other,
        ) && other != guild ==> view.buffers.contains_key((guild, user))
            && view.buffers[(guild, user)] == buffer,
{
    let after = StreamsView { buffers: view.buffers.insert((guild, user), buffer), ..view };
    assert forall|third: u64| third != guild implies #[trigger] call_of(after, third) == call_of(
        view,
        third,
    ) by {
        assert(call_of(after, third).streams =~= call_of(view, third).streams);
    }
    if others_same(view, after, other) && other != guild {
        assert(call_of(after, guild) == call_of(view, guild));
        assert(call_of(after, guild).streams.contains_key(user));
        assert(call_of(view, guild).streams.contains_key(user));
    }
}

/// A guild without a call has nothing held and nothing announced, and so has every guild at first.
pub proof fn law_calls_begin_with_nothing(guild: u64)
    ensures
        call_of(no_calls(), guild) == fresh_call(),
        fresh_call().streams == Map::<u64, pipeline::BufferView<u32>>::empty(),
        !fresh_call().started,
{
    assert(call_of(no_calls(), guild).streams =~= Map::<u64, pipeline::BufferView<u32>>::empty());
}

} // verus!
