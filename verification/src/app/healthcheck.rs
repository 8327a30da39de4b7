//! Whether each audio source of a call is received, decoded and mapped to a user.
use std::collections::HashMap;

use vstd::prelude::*;

use crate::maps;
use crate::time;
use crate::time::Nanos;

verus! {

broadcast use {
    vstd::seq::group_seq_axioms,
    vstd::set::group_set_axioms,
    vstd::map::group_map_axioms,
    vstd::std_specs::hash::group_hash_axioms,
};

/// How long a source that is not heard of is kept when room is needed.
pub const RETENTION: u64 = 120_000_000_000;

/// The most sources that are kept.
pub const MAX_SSRCS: usize = 64;

/// A packet within this time before a speaking update makes the update no news.
pub const PACKET_GRACE: u64 = 1_000_000_000;

/// Speaking without mapped audio is a problem from this time on.
pub const SPEAKING_GRACE: u64 = 5_000_000_000;

/// Speaking without mapped audio is stale after this time.
pub const SPEAKING_STALE: u64 = 30_000_000_000;

/// What was counted of one source.
#[derive(Clone, Copy)]
pub struct SourceCounts {
    pub packets: u64,
    pub decoded_packets: u64,
    pub mapped_packets: u64,
    pub concealed_frames: u64,
    /// A fresh speaking indication with no usable mapped audio.
    pub speaking_without_mapped_audio_since: Option<Nanos>,
}

/// The counts of a source of which nothing is known.
pub open spec fn no_counts() -> SourceCounts {
    SourceCounts {
        packets: 0,
        decoded_packets: 0,
        mapped_packets: 0,
        concealed_frames: 0,
        speaking_without_mapped_audio_since: None,
    }
}

impl Default for SourceCounts {
    fn default() -> (r: Self)
        ensures
            r == no_counts(),
    {
        SourceCounts {
            packets: 0,
            decoded_packets: 0,
            mapped_packets: 0,
            concealed_frames: 0,
            speaking_without_mapped_audio_since: None,
        }
    }
}

/// The counts of all sources at one time.
pub struct HealthSnapshot(pub HashMap<u32, SourceCounts>);

impl View for HealthSnapshot {
    type V = Map<u32, SourceCounts>;

    open spec fn view(&self) -> Map<u32, SourceCounts> {
        self.0@
    }
}

impl Default for HealthSnapshot {
    fn default() -> (r: Self)
        ensures
            r@ == Map::<u32, SourceCounts>::empty(),
    {
        HealthSnapshot(HashMap::new())
    }
}

/// One source: its counts, when it was last heard of, and when its last packet came.
#[derive(Clone, Copy)]
pub struct SourceState {
    pub counts: SourceCounts,
    pub last_seen: Nanos,
    pub last_packet: Option<Nanos>,
}

/// The receive health of a call.
pub struct ReceiveHealth {
    sources: HashMap<u32, SourceState>,
    driver_disconnected: bool,
}

/// What a `ReceiveHealth` holds.
#[verifier::ext_equal]
pub ghost struct HealthView {
    pub sources: Map<u32, SourceState>,
    pub driver_disconnected: bool,
}

impl View for ReceiveHealth {
    type V = HealthView;

    closed spec fn view(&self) -> HealthView {
        HealthView { sources: self.sources@, driver_disconnected: self.driver_disconnected }
    }
}

/// One more, as far as the counter reaches.
pub open spec fn next_count(n: u64) -> u64 {
    if n == u64::MAX {
        n
    } else {
        (n + 1) as u64
    }
}

// ---------------------------------------------------------------------------
// Room for a source
// ---------------------------------------------------------------------------

/// The sources that were heard of within the retention time.
pub open spec fn recent_sources(sources: Map<u32, SourceState>, now: Nanos) -> Map<
    u32,
    SourceState,
> {
    sources.remove_keys(
        Set::new(|ssrc: u32| time::elapsed(now, sources[ssrc].last_seen) >= RETENTION),
    )
}

/// No source was heard of before `ssrc`.
pub open spec fn is_oldest(sources: Map<u32, SourceState>, ssrc: u32) -> bool {
    sources.contains_key(ssrc) && forall|other: u32| #[trigger]
        sources.contains_key(other) ==> sources[ssrc].last_seen <= sources[other].last_seen
}

/// `after` holds the sources with room for `ssrc`. Where there is none, those that were not heard
/// of for long give way, and where that is not enough, one that was not heard of for longest.
pub open spec fn room_made(
    sources: Map<u32, SourceState>,
    ssrc: u32,
    now: Nanos,
    after: Map<u32, SourceState>,
) -> bool {
    let recent = recent_sources(sources, now);
    if sources.contains_key(ssrc) || sources.dom().len() < MAX_SSRCS {
        after == sources
    } else if recent.dom().len() < MAX_SSRCS {
        after == recent
    } else {
        exists|oldest: u32| #[trigger] is_oldest(recent, oldest) && after == recent.remove(oldest)
    }
}

/// A source, new where it is not among the sources yet, heard of now.
pub open spec fn seen_now(sources: Map<u32, SourceState>, ssrc: u32, now: Nanos) -> SourceState {
    if sources.contains_key(ssrc) {
        SourceState { last_seen: now, ..sources[ssrc] }
    } else {
        SourceState { counts: no_counts(), last_seen: now, last_packet: None }
    }
}

/// `after` holds the sources once `ssrc` was heard of and changed to `state`.
pub open spec fn source_set(
    sources: Map<u32, SourceState>,
    ssrc: u32,
    now: Nanos,
    state: spec_fn(SourceState) -> SourceState,
    after: Map<u32, SourceState>,
) -> bool {
    exists|room: Map<u32, SourceState>| #[trigger]
        room_made(sources, ssrc, now, room) && after == room.insert(
            ssrc,
            state(seen_now(room, ssrc, now)),
        )
}

/// A source with one more packet.
pub open spec fn with_packet(source: SourceState, now: Nanos) -> SourceState {
    SourceState {
        counts: SourceCounts { packets: next_count(source.counts.packets), ..source.counts },
        last_packet: Some(now),
        ..source
    }
}

/// A source with one more frame of audio: decoded from a packet, mapped to a user or not, or made
/// up to conceal a lost packet.
pub open spec fn with_decoded(source: SourceState, mapped: bool, packet_backed: bool) -> SourceState {
    let counts = source.counts;
    SourceState {
        counts: if !packet_backed {
            SourceCounts { concealed_frames: next_count(counts.concealed_frames), ..counts }
        } else if !mapped {
            SourceCounts { decoded_packets: next_count(counts.decoded_packets), ..counts }
        } else {
            SourceCounts {
                decoded_packets: next_count(counts.decoded_packets),
                mapped_packets: next_count(counts.mapped_packets),
                speaking_without_mapped_audio_since: None,
                ..counts
            }
        },
        ..source
    }
}

/// A source after a speaking update. One with the microphone off ends the wait for audio; one
/// with it on begins it, unless a packet came a moment ago.
pub open spec fn with_speaking(source: SourceState, microphone: bool, now: Nanos) -> SourceState {
    let quiet = match source.last_packet {
        Some(last) => time::elapsed(now, last) > PACKET_GRACE,
        None => true,
    };
    let since = if !microphone {
        None
    } else if quiet {
        Some(now)
    } else {
        source.counts.speaking_without_mapped_audio_since
    };
    SourceState {
        counts: SourceCounts { speaking_without_mapped_audio_since: since, ..source.counts },
        ..source
    }
}

/// No source has more packets that were mapped to a user than packets that were decoded.
pub open spec fn sound_counts(sources: Map<u32, SourceState>) -> bool {
    forall|ssrc: u32| #[trigger]
        sources.contains_key(ssrc) ==> sources[ssrc].counts.mapped_packets
            <= sources[ssrc].counts.decoded_packets
}

impl ReceiveHealth {
    /// No more sources are kept than there is room for, and none has more packets that were
    /// mapped to a user than packets that were decoded.
    pub open spec fn wf(&self) -> bool {
        &&& self@.sources.dom().finite()
        &&& self@.sources.dom().len() <= MAX_SSRCS
        &&& sound_counts(self@.sources)
    }

    fn drop_stale(&mut self, now: Nanos)
        requires
            old(self).wf(),
        ensures
            final(self).wf(),
            final(self)@ == (HealthView {
                sources: recent_sources(old(self)@.sources, now),
                ..old(self)@
            }),
    {
        let ghost before = self@.sources;
        let keys = maps::keys_of(&self.sources);
        for i in 0..keys.len()
            invariant
                keys@.no_duplicates(),
                forall|key: u32| keys@.contains(key) <==> #[trigger] before.contains_key(key),
                self.driver_disconnected == old(self).driver_disconnected,
                self@.sources.dom().finite(),
                self@.sources.dom().len() <= MAX_SSRCS,
                forall|key: u32| #[trigger]
                    self@.sources.contains_key(key) ==> before.contains_key(key)
                        && self@.sources[key] == before[key],
                forall|key: u32|
                    before.contains_key(key) && time::elapsed(now, before[key].last_seen)
                        < RETENTION ==> #[trigger] self@.sources.contains_key(key),
                forall|j: int|
                    0 <= j < i ==> (#[trigger] self@.sources.contains_key(keys@[j])
                        ==> time::elapsed(now, before[keys@[j]].last_seen) < RETENTION),
                forall|j: int|
                    i <= j < keys@.len() ==> #[trigger] self@.sources.contains_key(keys@[j]),
        {
            let key: u32 = keys[i];
            assert(self@.sources.contains_key(keys@[i as int]));
            if let Some(source) = self.sources.get(&key) {
                if time::saturating_elapsed(now, source.last_seen) >= RETENTION {
                    self.sources.remove(&key);
                }
            }
        }
        assert forall|key: u32| #[trigger] self@.sources.contains_key(key) implies time::elapsed(
            now,
            before[key].last_seen,
        ) < RETENTION by {
            assert(keys@.contains(key));
            let j = choose|j: int| 0 <= j < keys@.len() && keys@[j] == key;
            assert(self@.sources.contains_key(keys@[j]));
        }
        assert(self@.sources =~= recent_sources(before, now));
    }

    /// The source that was not heard of for longest.
    fn oldest(&self) -> (r: Option<u32>)
        ensures
            match r {
                Some(ssrc) => is_oldest(self@.sources, ssrc),
                None => self@.sources.dom().len() == 0,
            },
    {
        let keys = maps::keys_of(&self.sources);
        let mut best: Option<(u32, Nanos)> = None;
        for i in 0..keys.len()
            invariant
                forall|key: u32| keys@.contains(key) <==> #[trigger] self@.sources.contains_key(key),
                best is None ==> i == 0,
                best matches Some(found) ==> self@.sources.contains_key(found.0)
                    && self@.sources[found.0].last_seen == found.1 && forall|j: int|
                    0 <= j < i ==> found.1 <= self@.sources[#[trigger] keys@[j]].last_seen,
        {
            let key: u32 = keys[i];
            assert(keys@.contains(key));
            assert(self@.sources.contains_key(key));
            if let Some(source) = self.sources.get(&key) {
                let seen: Nanos = source.last_seen;
                let older = match best {
                    Some(found) => seen < found.1,
                    None => true,
                };
                if older {
                    best = Some((key, seen));
                }
            }
        }
        match best {
            Some(found) => {
                assert forall|other: u32| #[trigger]
                    self@.sources.contains_key(other) implies self@.sources[found.0].last_seen
                    <= self@.sources[other].last_seen by {
                    assert(keys@.contains(other));
                    let j = choose|j: int| 0 <= j < keys@.len() && keys@[j] == other;
                    assert(keys@[j] == other);
                }
                Some(found.0)
            },
            None => None,
        }
    }

    /// Makes room for the source and takes it out, new where it was not there, heard of now.
    fn update(&mut self, ssrc: u32, now: Nanos) -> (r: SourceState)
        requires
            old(self).wf(),
        ensures
            final(self).wf(),
            final(self)@.driver_disconnected == old(self)@.driver_disconnected,
            final(self)@.sources.dom().len() < MAX_SSRCS || final(self)@.sources.contains_key(ssrc),
            room_made(old(self)@.sources, ssrc, now, final(self)@.sources),
            r == seen_now(final(self)@.sources, ssrc, now),
    {
        if !self.sources.contains_key(&ssrc) && self.sources.len() >= MAX_SSRCS {
            self.drop_stale(now);
            let ghost recent = self@.sources;
            if self.sources.len() >= MAX_SSRCS {
                if let Some(oldest) = self.oldest() {
                    self.sources.remove(&oldest);
                    assert(is_oldest(recent, oldest));
                    assert(self@.sources =~= recent.remove(oldest));
                }
            }
        }
        match self.sources.get(&ssrc) {
            Some(source) => SourceState { last_seen: now, ..*source },
            None => SourceState {
                counts: SourceCounts::default(),
                last_seen: now,
                last_packet: None,
            },
        }
    }

    fn put(&mut self, ssrc: u32, source: SourceState)
        requires
            old(self).wf(),
            old(self)@.sources.dom().len() < MAX_SSRCS || old(self)@.sources.contains_key(ssrc),
            source.counts.mapped_packets <= source.counts.decoded_packets,
        ensures
            final(self).wf(),
            final(self)@ == (HealthView {
                sources: old(self)@.sources.insert(ssrc, source),
                ..old(self)@
            }),
    {
        self.sources.insert(ssrc, source);
        assert(old(self)@.sources.contains_key(ssrc) ==> self@.sources.dom()
            =~= old(self)@.sources.dom());
    }

    /// Takes note of a packet.
    pub fn packet(&mut self, ssrc: u32, now: Nanos)
        requires
            old(self).wf(),
        ensures
            final(self).wf(),
            final(self)@.driver_disconnected == old(self)@.driver_disconnected,
            source_set(
                old(self)@.sources,
                ssrc,
                now,
                |source: SourceState| with_packet(source, now),
                final(self)@.sources,
            ),
    {
        let mut source = self.update(ssrc, now);
        let ghost room = self@.sources;
        source.counts.packets = source.counts.packets.saturating_add(1);
        source.last_packet = Some(now);
        self.put(ssrc, source);
        assert(room_made(old(self)@.sources, ssrc, now, room));
    }

    /// Takes note of a frame of audio.
    pub fn decoded(&mut self, ssrc: u32, mapped: bool, packet_backed: bool, now: Nanos)
        requires
            old(self).wf(),
        ensures
            final(self).wf(),
            final(self)@.driver_disconnected == old(self)@.driver_disconnected,
            source_set(
                old(self)@.sources,
                ssrc,
                now,
                |source: SourceState| with_decoded(source, mapped, packet_backed),
                final(self)@.sources,
            ),
    {
        let mut source = self.update(ssrc, now);
        let ghost room = self@.sources;
        if packet_backed {
            source.counts.decoded_packets = source.counts.decoded_packets.saturating_add(1);
            if mapped {
                source.counts.mapped_packets = source.counts.mapped_packets.saturating_add(1);
                source.counts.speaking_without_mapped_audio_since = None;
            }
        } else {
            source.counts.concealed_frames = source.counts.concealed_frames.saturating_add(1);
        }
        self.put(ssrc, source);
        assert(room_made(old(self)@.sources, ssrc, now, room));
    }

    /// Takes note of a speaking update.
    pub fn speaking(&mut self, ssrc: u32, microphone: bool, now: Nanos)
        requires
            old(self).wf(),
        ensures
            final(self).wf(),
            final(self)@.driver_disconnected == old(self)@.driver_disconnected,
            source_set(
                old(self)@.sources,
                ssrc,
                now,
                |source: SourceState| with_speaking(source, microphone, now),
                final(self)@.sources,
            ),
    {
        let mut source = self.update(ssrc, now);
        let ghost room = self@.sources;
        if !microphone {
            source.counts.speaking_without_mapped_audio_since = None;
        } else {
            let quiet = match source.last_packet {
                Some(last) => time::saturating_elapsed(now, last) > PACKET_GRACE,
                None => true,
            };
            if quiet {
                source.counts.speaking_without_mapped_audio_since = Some(now);
            }
        }
        self.put(ssrc, source);
        assert(room_made(old(self)@.sources, ssrc, now, room));
    }

    /// Forgets a source.
    pub fn forget(&mut self, ssrc: u32)
        requires
            old(self).wf(),
        ensures
            final(self).wf(),
            final(self)@ == (HealthView {
                sources: old(self)@.sources.remove(ssrc),
                ..old(self)@
            }),
    {
        self.sources.remove(&ssrc);
        assert(self@.sources =~= old(self)@.sources.remove(ssrc));
    }

    /// Whether the voice driver has lost its connection.
    pub fn driver_disconnected(&self) -> (r: bool)
        ensures
            r == self@.driver_disconnected,
    {
        self.driver_disconnected
    }

    /// Takes note of whether the voice driver has lost its connection.
    pub fn set_driver_disconnected(&mut self, disconnected: bool)
        ensures
            final(self)@ == (HealthView { driver_disconnected: disconnected, ..old(self)@ }),
    {
        self.driver_disconnected = disconnected;
    }

    /// The counts of all sources.
    pub fn snapshot(&self) -> (r: HealthSnapshot)
        ensures
            r@ == self@.sources.map_values(|source: SourceState| source.counts),
    {
        let keys = maps::keys_of(&self.sources);
        let mut counts: HashMap<u32, SourceCounts> = HashMap::new();
        for i in 0..keys.len()
            invariant
                forall|key: u32| keys@.contains(key) <==> #[trigger] self@.sources.contains_key(key),
                forall|key: u32| #[trigger]
                    counts@.contains_key(key) ==> self@.sources.contains_key(key) && counts@[key]
                        == self@.sources[key].counts,
                forall|j: int| 0 <= j < i ==> counts@.contains_key(#[trigger] keys@[j]),
        {
            let key: u32 = keys[i];
            assert(keys@.contains(key));
            assert(self@.sources.contains_key(key));
            if let Some(source) = self.sources.get(&key) {
                counts.insert(key, source.counts);
            }
        }
        assert forall|key: u32| #[trigger]
            self@.sources.contains_key(key) implies counts@.contains_key(key) by {
            assert(keys@.contains(key));
            let j = choose|j: int| 0 <= j < keys@.len() && keys@[j] == key;
            assert(counts@.contains_key(keys@[j]));
        }
        let r = HealthSnapshot(counts);
        assert(r@ =~= self@.sources.map_values(|source: SourceState| source.counts));
        r
    }

    /// When the last packet of any source came.
    pub fn last_packet_at(&self) -> (r: Option<Nanos>)
        ensures
            match r {
                Some(latest) => (exists|ssrc: u32| #[trigger]
                    self@.sources.contains_key(ssrc) && self@.sources[ssrc].last_packet == Some(
                        latest,
                    )) && forall|ssrc: u32| #[trigger]
                    self@.sources.contains_key(ssrc) ==> match self@.sources[ssrc].last_packet {
                        Some(at) => at <= latest,
                        None => true,
                    },
                None => forall|ssrc: u32| #[trigger]
                    self@.sources.contains_key(ssrc) ==> self@.sources[ssrc].last_packet is None,
            },
    {
        let keys = maps::keys_of(&self.sources);
        let mut latest: Option<Nanos> = None;
        for i in 0..keys.len()
            invariant
                forall|key: u32| keys@.contains(key) <==> #[trigger] self@.sources.contains_key(key),
                match latest {
                    Some(found) => (exists|ssrc: u32| #[trigger]
                        self@.sources.contains_key(ssrc) && self@.sources[ssrc].last_packet == Some(
                            found,
                        )) && forall|j: int|
                        0 <= j < i ==> match self@.sources[#[trigger] keys@[j]].last_packet {
                            Some(at) => at <= found,
                            None => true,
                        },
                    None => forall|j: int|
                        0 <= j < i ==> self@.sources[#[trigger] keys@[j]].last_packet is None,
                },
        {
            let key: u32 = keys[i];
            assert(keys@.contains(key));
            assert(self@.sources.contains_key(key));
            if let Some(source) = self.sources.get(&key) {
                if let Some(at) = source.last_packet {
                    let later = match latest {
                        Some(found) => at > found,
                        None => true,
                    };
                    if later {
                        latest = Some(at);
                    }
                }
            }
        }
        assert forall|ssrc: u32| #[trigger] self@.sources.contains_key(ssrc) implies match (
        latest,
        self@.sources[ssrc].last_packet,
    ) {
            (Some(found), Some(at)) => at <= found,
            (None, Some(_)) => false,
            _ => true,
        } by {
            assert(keys@.contains(ssrc));
            let j = choose|j: int| 0 <= j < keys@.len() && keys@[j] == ssrc;
            assert(keys@[j] == ssrc);
        }
        latest
    }

    /// Forgets all sources, and that the driver has lost its connection.
    pub fn clear(&mut self)
        ensures
            final(self).wf(),
            final(self)@ == empty_health(),
    {
        self.sources.clear();
        self.driver_disconnected = false;
        assert(self@.sources =~= Map::<u32, SourceState>::empty());
    }
}

/// The health of a call of which nothing is known.
pub open spec fn empty_health() -> HealthView {
    HealthView { sources: Map::empty(), driver_disconnected: false }
}

impl Default for ReceiveHealth {
    fn default() -> (r: Self)
        ensures
            r.wf(),
            r@ == empty_health(),
    {
        let r = ReceiveHealth { sources: HashMap::new(), driver_disconnected: false };
        assert(r@.sources =~= Map::<u32, SourceState>::empty());
        r
    }
}

// ---------------------------------------------------------------------------
// Problems
// ---------------------------------------------------------------------------

/// What is wrong with a source.
#[derive(Clone, Copy, Debug, PartialEq, Eq, Structural)]
pub enum SourceProblem {
    Decode,
    Mapping,
    NoMappedAudioAfterSpeaking,
}

/// `a - b`, or zero where that is negative.
pub open spec fn growth(a: u64, b: u64) -> int {
    if a >= b {
        a - b
    } else {
        0
    }
}

/// What is wrong with a source that had the counts `old` and has `new`: under half of at least
/// eight packets were decoded, or under half of at least eight decoded packets were mapped, or a
/// speaking indication has gone five to thirty seconds without mapped audio.
pub open spec fn problem_of(old: SourceCounts, new: SourceCounts, now: Nanos) -> Option<
    SourceProblem,
> {
    let packets = growth(new.packets, old.packets);
    let decoded = growth(new.decoded_packets, old.decoded_packets);
    let mapped = growth(new.mapped_packets, old.mapped_packets);
    if packets >= 8 && decoded * 2 < packets {
        Some(SourceProblem::Decode)
    } else if decoded >= 8 && mapped * 2 < decoded {
        Some(SourceProblem::Mapping)
    } else {
        match new.speaking_without_mapped_audio_since {
            Some(since) => if SPEAKING_GRACE <= time::elapsed(now, since) <= SPEAKING_STALE {
                Some(SourceProblem::NoMappedAudioAfterSpeaking)
            } else {
                None
            },
            None => None,
        }
    }
}

/// The counts of a source in a snapshot.
pub open spec fn counts_of(snapshot: Map<u32, SourceCounts>, ssrc: u32) -> SourceCounts {
    if snapshot.contains_key(ssrc) {
        snapshot[ssrc]
    } else {
        no_counts()
    }
}

/// The list names every source that has a problem once, with the problem, in some order.
pub open spec fn lists_problems(
    list: Seq<(u32, SourceProblem)>,
    previous: Map<u32, SourceCounts>,
    current: Map<u32, SourceCounts>,
    now: Nanos,
) -> bool {
    &&& forall|i: int|
        0 <= i < list.len() ==> current.contains_key((#[trigger] list[i]).0) && problem_of(
            counts_of(previous, list[i].0),
            current[list[i].0],
            now,
        ) == Some(list[i].1)
    &&& forall|i: int, j: int|
        0 <= i < list.len() && 0 <= j < list.len() && i != j ==> (#[trigger] list[i]).0 != (
        #[trigger] list[j]).0
    &&& forall|ssrc: u32| #[trigger]
        current.contains_key(ssrc) ==> match problem_of(
            counts_of(previous, ssrc),
            current[ssrc],
            now,
        ) {
            Some(problem) => list.contains((ssrc, problem)),
            None => true,
        }
}

/// What is wrong with one source.
fn source_problem(old: SourceCounts, new: SourceCounts, now: Nanos) -> (r: Option<SourceProblem>)
    ensures
        r == problem_of(old, new, now),
{
    let packets: u64 = new.packets.saturating_sub(old.packets);
    let decoded: u64 = new.decoded_packets.saturating_sub(old.decoded_packets);
    let mapped: u64 = new.mapped_packets.saturating_sub(old.mapped_packets);
    if packets >= 8 && decoded < packets - decoded.min(packets) {
        return Some(SourceProblem::Decode);
    }
    if decoded >= 8 && mapped < decoded - mapped.min(decoded) {
        return Some(SourceProblem::Mapping);
    }
    if let Some(since) = new.speaking_without_mapped_audio_since {
        let waited: u64 = time::saturating_elapsed(now, since);
        if SPEAKING_GRACE <= waited && waited <= SPEAKING_STALE {
            return Some(SourceProblem::NoMappedAudioAfterSpeaking);
        }
    }
    None
}

/// What is wrong with each source, out of what changed from one snapshot to the other.
pub fn assess(
    previous: &HealthSnapshot,
    current: &HealthSnapshot,
    now: Nanos,
) -> (r: Vec<(u32, SourceProblem)>)
    ensures
        lists_problems(r@, previous@, current@, now),
{
    let keys = maps::keys_of(&current.0);
    let mut problems: Vec<(u32, SourceProblem)> = Vec::new();
    for i in 0..keys.len()
        invariant
            keys@.no_duplicates(),
            forall|key: u32| keys@.contains(key) <==> #[trigger] current@.contains_key(key),
            forall|k: int|
                0 <= k < problems@.len() ==> current@.contains_key((#[trigger] problems@[k]).0)
                    && problem_of(
                    counts_of(previous@, problems@[k].0),
                    current@[problems@[k].0],
                    now,
                ) == Some(problems@[k].1) && exists|j: int|
                    0 <= j < i && keys@[j] == problems@[k].0,
            forall|k: int, l: int|
                0 <= k < problems@.len() && 0 <= l < problems@.len() && k != l ==> (
                #[trigger] problems@[k]).0 != (#[trigger] problems@[l]).0,
            forall|j: int|
                0 <= j < i ==> match problem_of(
                    counts_of(previous@, #[trigger] keys@[j]),
                    current@[keys@[j]],
                    now,
                ) {
                    Some(problem) => problems@.contains((keys@[j], problem)),
                    None => true,
                },
    {
        let ssrc: u32 = keys[i];
        assert(keys@.contains(ssrc));
        assert(current@.contains_key(ssrc));
        let ghost before = problems@;
        if let Some(counts) = current.0.get(&ssrc) {
            let old_counts: SourceCounts = match previous.0.get(&ssrc) {
                Some(old_counts) => *old_counts,
                None => SourceCounts::default(),
            };
            if let Some(problem) = source_problem(old_counts, *counts, now) {
                problems.push((ssrc, problem));
                assert(problems@[before.len() as int] == (ssrc, problem));
                assert forall|j: int| 0 <= j < i implies match problem_of(
                    counts_of(previous@, #[trigger] keys@[j]),
                    current@[keys@[j]],
                    now,
                ) {
                    Some(problem) => problems@.contains((keys@[j], problem)),
                    None => true,
                } by {
                    if let Some(found) = problem_of(
                        counts_of(previous@, keys@[j]),
                        current@[keys@[j]],
                        now,
                    ) {
                        let k = choose|k: int|
                            0 <= k < before.len() && before[k] == (keys@[j], found);
                        assert(problems@[k] == (keys@[j], found));
                    }
                }
            }
        }
    }
    assert forall|ssrc: u32| #[trigger] current@.contains_key(ssrc) implies match problem_of(
        counts_of(previous@, ssrc),
        current@[ssrc],
        now,
    ) {
        Some(problem) => problems@.contains((ssrc, problem)),
        None => true,
    } by {
        assert(keys@.contains(ssrc));
        let j = choose|j: int| 0 <= j < keys@.len() && keys@[j] == ssrc;
        assert(keys@[j] == ssrc);
    }
    problems
}

/// A source has at least the given number of mapped packets.
pub open spec fn audio_observed(
    snapshot: Map<u32, SourceCounts>,
    ssrc: u32,
    minimum_packets: u64,
) -> bool {
    snapshot.contains_key(ssrc) && snapshot[ssrc].mapped_packets >= minimum_packets
}

/// Whether a source has at least the given number of mapped packets.
pub fn mapped_audio_observed(snapshot: &HealthSnapshot, ssrc: u32, minimum_packets: u64) -> (r:
    bool)
    ensures
        r == audio_observed(snapshot@, ssrc, minimum_packets),
{
    match snapshot.0.get(&ssrc) {
        Some(counts) => counts.mapped_packets >= minimum_packets,
        None => false,
    }
}

/// A source is judged by its own counts alone: however the other sources fare, it is named with
/// the same problem or not named at all.
pub proof fn law_sources_are_judged_alone(
    list: Seq<(u32, SourceProblem)>,
    previous: Map<u32, SourceCounts>,
    current: Map<u32, SourceCounts>,
    other_list: Seq<(u32, SourceProblem)>,
    other_previous: Map<u32, SourceCounts>,
    other_current: Map<u32, SourceCounts>,
    now: Nanos,
    ssrc: u32,
    problem: SourceProblem,
)
    requires
        lists_problems(list, previous, current, now),
        lists_problems(other_list, other_previous, other_current, now),
        current.contains_key(ssrc),
        other_current.contains_key(ssrc),
        counts_of(previous, ssrc) == counts_of(other_previous, ssrc),
        current[ssrc] == other_current[ssrc],
    ensures
        list.contains((ssrc, problem)) <==> other_list.contains((ssrc, problem)),
{
    if list.contains((ssrc, problem)) {
        let i = choose|i: int| 0 <= i < list.len() && list[i] == (ssrc, problem);
        assert(list[i].0 == ssrc);
    }
    if other_list.contains((ssrc, problem)) {
        let i = choose|i: int| 0 <= i < other_list.len() && other_list[i] == (ssrc, problem);
        assert(other_list[i].0 == ssrc);
    }
}

/// A source without packets, decoded audio or speaking indication has no problem: silence is no
/// failure.
pub proof fn law_quiet_source_has_no_problem(old: SourceCounts, new: SourceCounts, now: Nanos)
    requires
        growth(new.packets, old.packets) < 8,
        growth(new.decoded_packets, old.decoded_packets) < 8,
        new.speaking_without_mapped_audio_since is None,
    ensures
        problem_of(old, new, now) is None,
{
}

/// Audio that came in a packet and was mapped to a user ends the wait after a speaking update;
/// audio that was made up, or that is mapped to nobody, does not.
pub proof fn law_only_mapped_packets_end_the_wait(
    source: SourceState,
    mapped: bool,
    packet_backed: bool,
)
    requires
        source.counts.speaking_without_mapped_audio_since is Some,
    ensures
        with_decoded(
            source,
            mapped,
            packet_backed,
        ).counts.speaking_without_mapped_audio_since is None <==> mapped && packet_backed,
{
}

/// The list of problems says of each source that is seen what its growth since the last look
/// shows: at least eight packets came and fewer than half of them were decoded; or else at least
/// eight were decoded and fewer than half of them belonged to a known user; or else somebody has
/// been speaking for five to thirty seconds and none of it was heard. It holds no other source, and
/// none twice.
pub proof fn law_problems_are_told(
    list: Seq<(u32, SourceProblem)>,
    previous: Map<u32, SourceCounts>,
    current: Map<u32, SourceCounts>,
    now: Nanos,
    ssrc: u32,
)
    requires
        lists_problems(list, previous, current, now),
    ensures
        ({
            let new = current[ssrc];
            let known = previous.contains_key(ssrc);
            let packets = new.packets - (if known {
                previous[ssrc].packets
            } else {
                0
            });
            let decoded = new.decoded_packets - (if known {
                previous[ssrc].decoded_packets
            } else {
                0
            });
            let mapped = new.mapped_packets - (if known {
                previous[ssrc].mapped_packets
            } else {
                0
            });
            let undecoded = packets >= 8 && decoded + decoded < packets;
            let unmapped = decoded >= 8 && mapped + mapped < decoded;
            let unheard = new.speaking_without_mapped_audio_since is Some && 5_000_000_000 <= now
                - new.speaking_without_mapped_audio_since.unwrap() <= 30_000_000_000;
            let seen = current.contains_key(ssrc);
            &&& list.contains((ssrc, SourceProblem::Decode)) <==> seen && undecoded
            &&& list.contains((ssrc, SourceProblem::Mapping)) <==> seen && !undecoded && unmapped
            &&& list.contains((ssrc, SourceProblem::NoMappedAudioAfterSpeaking)) <==> seen
                && !undecoded && !unmapped && unheard
        }),
        forall|i: int, j: int|
            0 <= i < j < list.len() ==> (#[trigger] list[i]).0 != (#[trigger] list[j]).0,
{
    if current.contains_key(ssrc) {
        assert forall|kind: SourceProblem| #[trigger]
            list.contains((ssrc, kind)) implies problem_of(
            counts_of(previous, ssrc),
            current[ssrc],
            now,
        ) == Some(kind) by {
            let i = choose|i: int| 0 <= i < list.len() && list[i] == (ssrc, kind);
            assert(list[i].0 == ssrc);
        }
    } else {
        assert forall|kind: SourceProblem| #[trigger] list.contains((ssrc, kind)) implies false by {
            let i = choose|i: int| 0 <= i < list.len() && list[i] == (ssrc, kind);
            assert(list[i].0 == ssrc);
        }
    }
}

/// What is learnt of a source touches that source alone, unless there is no room for it: a new
/// source, where 64 are held already, drives out those that have been quiet for two minutes, and
/// where that is not enough the one that has been quiet longest.
pub proof fn law_sources_are_kept_apart(
    before: Map<u32, SourceState>,
    ssrc: u32,
    now: Nanos,
    state: spec_fn(SourceState) -> SourceState,
    after: Map<u32, SourceState>,
    other: u32,
)
    requires
        source_set(before, ssrc, now, state, after),
        before.dom().finite(),
    ensures
        after.contains_key(ssrc),
        before.contains_key(ssrc) ==> after[ssrc] == state(
            SourceState { last_seen: now, ..before[ssrc] },
        ),
        !before.contains_key(ssrc) ==> after[ssrc] == state(
            SourceState {
                counts: SourceCounts {
                    packets: 0,
                    decoded_packets: 0,
                    mapped_packets: 0,
                    concealed_frames: 0,
                    speaking_without_mapped_audio_since: None,
                },
                last_seen: now,
                last_packet: None,
            },
        ),
        other != ssrc && after.contains_key(other) ==> before.contains_key(other) && after[other]
            == before[other],
        ({
            let crowded = !before.contains_key(ssrc) && before.dom().len() >= 64;
            let quiet = now - before[other].last_seen >= 120_000_000_000;
            let dropped = before.contains_key(other) && !after.contains_key(other);
            &&& dropped ==> crowded
            &&& crowded && before.contains_key(other) && quiet ==> dropped
            &&& dropped && !quiet ==> {
                &&& after.dom().len() >= 64
                &&& forall|third: u32| #[trigger]
                    after.contains_key(third) && third != ssrc ==> before[other].last_seen
                        <= before[third].last_seen
                &&& forall|third: u32| #[trigger]
                    before.contains_key(third) && !after.contains_key(third) && third != other
                        ==> now - before[third].last_seen >= 120_000_000_000
            }
        }),
{
    let room = choose|room: Map<u32, SourceState>| #[trigger]
        room_made(before, ssrc, now, room) && after == room.insert(
            ssrc,
            state(seen_now(room, ssrc, now)),
        );
    let recent = recent_sources(before, now);
    if !(before.contains_key(ssrc) || before.dom().len() < MAX_SSRCS) {
        assert(recent.dom().subset_of(before.dom()));
        vstd::set_lib::lemma_len_subset(recent.dom(), before.dom());
        if !(recent.dom().len() < MAX_SSRCS) {
            let oldest = choose|oldest: u32| #[trigger]
                is_oldest(recent, oldest) && room == recent.remove(oldest);
            assert(room.dom() =~= recent.dom().remove(oldest));
            assert(after.dom() =~= room.dom().insert(ssrc));
            assert(recent.contains_key(oldest));
            assert forall|third: u32| #[trigger]
                after.contains_key(third) && third != ssrc implies recent.contains_key(third) by {
                assert(room.contains_key(third));
            }
        }
    }
}

/// A packet is counted, one more than before until the count is full, and its time is noted.
/// Nothing else of the source changes.
pub proof fn law_packets_are_counted(source: SourceState, now: Nanos)
    ensures
        ({
            let after = with_packet(source, now);
            &&& after.last_packet == Some(now)
            &&& after.last_seen == source.last_seen
            &&& source.counts.packets < u64::MAX ==> after.counts.packets == source.counts.packets
                + 1
            &&& source.counts.packets == u64::MAX ==> after.counts.packets == u64::MAX
            &&& after.counts.decoded_packets == source.counts.decoded_packets
            &&& after.counts.mapped_packets == source.counts.mapped_packets
            &&& after.counts.concealed_frames == source.counts.concealed_frames
            &&& after.counts.speaking_without_mapped_audio_since
                == source.counts.speaking_without_mapped_audio_since
        }),
{
}

/// Decoded audio is counted under what it is: filled in for a lost packet, or decoded from a
/// packet, and in that case also as mapped where its user is known. It is no packet itself.
pub proof fn law_decoded_audio_is_counted(source: SourceState, mapped: bool, packet_backed: bool)
    requires
        source.counts.decoded_packets < u64::MAX,
        source.counts.mapped_packets < u64::MAX,
        source.counts.concealed_frames < u64::MAX,
    ensures
        ({
            let before = source.counts;
            let after = with_decoded(source, mapped, packet_backed);
            &&& after.last_packet == source.last_packet
            &&& after.last_seen == source.last_seen
            &&& after.counts.packets == before.packets
            &&& after.counts.concealed_frames == before.concealed_frames + (if packet_backed {
                0int
            } else {
                1
            })
            &&& after.counts.decoded_packets == before.decoded_packets + (if packet_backed {
                1int
            } else {
                0
            })
            &&& after.counts.mapped_packets == before.mapped_packets + (if packet_backed && mapped {
                1int
            } else {
                0
            })
            &&& after.counts.speaking_without_mapped_audio_since == (if packet_backed && mapped {
                None
            } else {
                before.speaking_without_mapped_audio_since
            })
        }),
{
}

/// Who starts to speak with a microphone and has sent nothing for a second is waited for from now
/// on; one who sent something of late is waited for as before; and of anything but a microphone
/// nothing is expected. No count changes.
pub proof fn law_speaking_starts_the_wait(source: SourceState, microphone: bool, now: Nanos)
    ensures
        ({
            let before = source.counts;
            let after = with_speaking(source, microphone, now);
            let silent = source.last_packet is None || now - source.last_packet.unwrap()
                > 1_000_000_000;
            &&& after.last_packet == source.last_packet
            &&& after.last_seen == source.last_seen
            &&& after.counts.packets == before.packets
            &&& after.counts.decoded_packets == before.decoded_packets
            &&& after.counts.mapped_packets == before.mapped_packets
            &&& after.counts.concealed_frames == before.concealed_frames
            &&& after.counts.speaking_without_mapped_audio_since == (if !microphone {
                None
            } else if silent {
                Some(now)
            } else {
                before.speaking_without_mapped_audio_since
            })
        }),
{
}

/// A connection begins with no source seen and the driver connected.
pub proof fn law_connections_begin_afresh(snapshot: Map<u32, SourceCounts>, ssrc: u32, n: u64)
    ensures
        !empty_health().driver_disconnected,
        !empty_health().sources.contains_key(ssrc),
        audio_observed(snapshot, ssrc, n) <==> snapshot.contains_key(ssrc)
            && snapshot[ssrc].mapped_packets >= n,
{
}

} // verus!
