//! Audio of streams whose user is not known yet, kept for a moment until the user is.
use vstd::prelude::*;

use crate::seqs;
use crate::time;
use crate::time::Nanos;

verus! {

broadcast use vstd::seq::group_seq_axioms;

/// The most streams that are kept at a time.
pub const UNKNOWN_SSRC_MAX_TRACKED: usize = 8;

/// The most samples that are kept of one stream: one second of stereo audio at 48 kHz.
pub const UNKNOWN_SSRC_MAX_SAMPLES: usize = 96_000;

/// How long a stream without new audio is kept.
pub const UNKNOWN_SSRC_RETENTION: u64 = 1_000_000_000;

/// The audio of one stream.
pub struct UnknownSsrcAudio {
    guild: u64,
    ssrc: u32,
    samples: Vec<i16>,
    last_update: Nanos,
}

/// What an `UnknownSsrcAudio` holds.
#[verifier::ext_equal]
pub ghost struct UnknownAudio {
    pub guild: u64,
    pub ssrc: u32,
    pub samples: Seq<i16>,
    pub last_update: Nanos,
}

impl View for UnknownSsrcAudio {
    type V = UnknownAudio;

    closed spec fn view(&self) -> UnknownAudio {
        UnknownAudio {
            guild: self.guild,
            ssrc: self.ssrc,
            samples: self.samples@,
            last_update: self.last_update,
        }
    }
}

/// The last `n` elements of `s`, or all where it has no more.
pub open spec fn last_elements<T>(s: Seq<T>, n: int) -> Seq<T> {
    if s.len() <= n {
        s
    } else {
        s.skip(s.len() - n)
    }
}

/// The stream with `decoded` behind its audio, of which the oldest samples give way.
pub open spec fn heard(audio: UnknownAudio, decoded: Seq<i16>, now: Nanos) -> UnknownAudio {
    UnknownAudio {
        samples: last_elements(audio.samples + decoded, UNKNOWN_SSRC_MAX_SAMPLES as int),
        last_update: now,
        ..audio
    }
}

/// A stream without audio.
pub open spec fn unheard(guild: u64, ssrc: u32, now: Nanos) -> UnknownAudio {
    UnknownAudio { guild, ssrc, samples: Seq::empty(), last_update: now }
}

impl UnknownSsrcAudio {
    fn new(guild: u64, ssrc: u32, now: Nanos) -> (r: Self)
        ensures
            r@ == unheard(guild, ssrc, now),
    {
        UnknownSsrcAudio { guild, ssrc, samples: Vec::new(), last_update: now }
    }

    fn push(&mut self, decoded: &[i16], now: Nanos)
        ensures
            final(self)@ == heard(old(self)@, decoded@, now),
    {
        self.last_update = now;
        for i in 0..decoded.len()
            invariant
                self@ == (UnknownAudio {
                    samples: old(self)@.samples + decoded@.take(i as int),
                    last_update: now,
                    ..old(self)@
                }),
        {
            self.samples.push(decoded[i]);
            assert(old(self)@.samples + decoded@.take(i + 1) =~= (old(self)@.samples
                + decoded@.take(i as int)).push(decoded@[i as int]));
        }
        assert(decoded@.take(decoded@.len() as int) =~= decoded@);
        let overflow: usize = self.samples.len().saturating_sub(UNKNOWN_SSRC_MAX_SAMPLES);
        if overflow > 0 {
            let mut kept = self.samples.split_off(overflow);
            std::mem::swap(&mut kept, &mut self.samples);
        }
        assert(self@ =~= heard(old(self)@, decoded@, now));
    }
}

/// The streams whose user is not known yet.
pub struct UnknownSsrcBuffers {
    streams: Vec<UnknownSsrcAudio>,
}

impl View for UnknownSsrcBuffers {
    type V = Seq<UnknownAudio>;

    closed spec fn view(&self) -> Seq<UnknownAudio> {
        self.streams@.map_values(|audio: UnknownSsrcAudio| audio@)
    }
}

/// Whether a stream is the one of this number in this guild.
pub open spec fn is_stream(audio: UnknownAudio, guild: u64, ssrc: u32) -> bool {
    audio.guild == guild && audio.ssrc == ssrc
}

/// The position of a stream, or the number of streams where it is not among them.
pub open spec fn stream_position(streams: Seq<UnknownAudio>, guild: u64, ssrc: u32) -> int
    decreases streams.len(),
{
    if streams.len() == 0 || is_stream(streams[0], guild, ssrc) {
        0
    } else {
        1 + stream_position(streams.drop_first(), guild, ssrc)
    }
}

/// The streams that had audio within the retention time.
pub open spec fn recent_streams(streams: Seq<UnknownAudio>, now: Nanos) -> Seq<UnknownAudio> {
    streams.filter(|audio: UnknownAudio| time::elapsed(now, audio.last_update) <= UNKNOWN_SSRC_RETENTION)
}

/// The streams after audio of one of them. A stream that is new is left out where there is no
/// room for it.
pub open spec fn streams_heard(
    streams: Seq<UnknownAudio>,
    guild: u64,
    ssrc: u32,
    decoded: Seq<i16>,
    now: Nanos,
) -> Seq<UnknownAudio> {
    let kept = recent_streams(streams, now);
    let at = stream_position(kept, guild, ssrc);
    if at < kept.len() {
        kept.update(at, heard(kept[at], decoded, now))
    } else if kept.len() >= UNKNOWN_SSRC_MAX_TRACKED {
        kept
    } else {
        kept.push(heard(unheard(guild, ssrc, now), decoded, now))
    }
}

/// The audio of a stream, and the streams without it.
pub open spec fn stream_taken(streams: Seq<UnknownAudio>, guild: u64, ssrc: u32) -> (
    Seq<i16>,
    Seq<UnknownAudio>,
) {
    let at = stream_position(streams, guild, ssrc);
    if at < streams.len() {
        (streams[at].samples, streams.remove(at))
    } else {
        (Seq::empty(), streams)
    }
}

/// The bounds that hold of every set of streams: their number, the length of each, and no stream
/// twice.
pub open spec fn streams_bounded(streams: Seq<UnknownAudio>) -> bool {
    &&& streams.len() <= UNKNOWN_SSRC_MAX_TRACKED
    &&& forall|i: int|
        0 <= i < streams.len() ==> (#[trigger] streams[i]).samples.len() <= UNKNOWN_SSRC_MAX_SAMPLES
    &&& forall|i: int, j: int|
        0 <= i < streams.len() && 0 <= j < streams.len() && i != j ==> !is_stream(
            #[trigger] streams[i],
            (#[trigger] streams[j]).guild,
            streams[j].ssrc,
        )
}

proof fn lemma_stream_position(streams: Seq<UnknownAudio>, guild: u64, ssrc: u32)
    ensures
        ({
            let at = stream_position(streams, guild, ssrc);
            &&& 0 <= at <= streams.len()
            &&& at < streams.len() ==> is_stream(streams[at], guild, ssrc)
            &&& forall|i: int| 0 <= i < at ==> !is_stream(#[trigger] streams[i], guild, ssrc)
        }),
    decreases streams.len(),
{
    if streams.len() > 0 && !is_stream(streams[0], guild, ssrc) {
        let rest = streams.drop_first();
        lemma_stream_position(rest, guild, ssrc);
        let at = stream_position(rest, guild, ssrc);
        assert forall|i: int| 0 <= i < at + 1 implies !is_stream(
            #[trigger] streams[i],
            guild,
            ssrc,
        ) by {
            if i > 0 {
                assert(rest[i - 1] == streams[i]);
            }
        }
    }
}

proof fn lemma_filter_bounded(streams: Seq<UnknownAudio>, keep: spec_fn(UnknownAudio) -> bool)
    requires
        streams_bounded(streams),
    ensures
        streams_bounded(streams.filter(keep)),
        forall|i: int|
            0 <= i < streams.filter(keep).len() ==> exists|j: int|
                0 <= j < streams.len() && streams[j] == #[trigger] streams.filter(keep)[i],
    decreases streams.len(),
{
    reveal(Seq::filter);
    if streams.len() > 0 {
        let shorter = streams.drop_last();
        assert(streams_bounded(shorter)) by {
            assert forall|i: int| 0 <= i < shorter.len() implies (
            #[trigger] shorter[i]).samples.len() <= UNKNOWN_SSRC_MAX_SAMPLES by {
                assert(shorter[i] == streams[i]);
            }
            assert forall|i: int, j: int|
                0 <= i < shorter.len() && 0 <= j < shorter.len() && i != j implies !is_stream(
                #[trigger] shorter[i],
                (#[trigger] shorter[j]).guild,
                shorter[j].ssrc,
            ) by {
                assert(shorter[i] == streams[i] && shorter[j] == streams[j]);
            }
        }
        lemma_filter_bounded(shorter, keep);
        let last = streams.len() - 1;
        let kept = shorter.filter(keep);
        assert forall|i: int| 0 <= i < kept.len() implies exists|j: int|
            0 <= j < last && streams[j] == #[trigger] kept[i] by {
            let j = choose|j: int| 0 <= j < shorter.len() && shorter[j] == kept[i];
            assert(streams[j] == kept[i]);
        }
        assert(kept.len() <= shorter.len()) by {
            lemma_filter_len(shorter, keep);
        }
        assert forall|i: int| 0 <= i < streams.filter(keep).len() implies exists|j: int|
            0 <= j < streams.len() && streams[j] == #[trigger] streams.filter(keep)[i] by {
            if i < kept.len() {
                let j = choose|j: int| 0 <= j < last && streams[j] == kept[i];
                assert(streams[j] == streams.filter(keep)[i]);
            } else {
                assert(streams[last] == streams.filter(keep)[i]);
            }
        }
    }
}

proof fn lemma_filter_len(streams: Seq<UnknownAudio>, keep: spec_fn(UnknownAudio) -> bool)
    ensures
        streams.filter(keep).len() <= streams.len(),
    decreases streams.len(),
{
    reveal(Seq::filter);
    if streams.len() > 0 {
        lemma_filter_len(streams.drop_last(), keep);
    }
}

/// Audio of a stream keeps the bounds: eight streams at most, one second of stereo audio each.
pub proof fn law_streams_stay_bounded(
    streams: Seq<UnknownAudio>,
    guild: u64,
    ssrc: u32,
    decoded: Seq<i16>,
    now: Nanos,
)
    requires
        streams_bounded(streams),
    ensures
        streams_bounded(streams_heard(streams, guild, ssrc, decoded, now)),
        streams_bounded(stream_taken(streams, guild, ssrc).1),
        streams_bounded(streams.filter(|audio: UnknownAudio| audio.guild != guild)),
{
    lemma_filter_bounded(
        streams,
        |audio: UnknownAudio| time::elapsed(now, audio.last_update) <= UNKNOWN_SSRC_RETENTION,
    );
    lemma_filter_bounded(streams, |audio: UnknownAudio| audio.guild != guild);
    let kept = recent_streams(streams, now);
    lemma_stream_position(kept, guild, ssrc);
    lemma_stream_position(streams, guild, ssrc);
}

impl UnknownSsrcBuffers {
    /// Whether the bounds on the streams hold.
    pub open spec fn wf(&self) -> bool {
        streams_bounded(self@)
    }

    /// No streams.
    pub fn new() -> (r: Self)
        ensures
            r@ == Seq::<UnknownAudio>::empty(),
            r.wf(),
    {
        let r = UnknownSsrcBuffers { streams: Vec::new() };
        assert(r@ =~= Seq::<UnknownAudio>::empty());
        r
    }

    fn position(&self, guild: u64, ssrc: u32) -> (r: usize)
        ensures
            r == stream_position(self@, guild, ssrc),
            r <= self.streams@.len(),
    {
        let ghost all = self@;
        proof {
            lemma_stream_position(all, guild, ssrc);
        }
        let mut i: usize = 0;
        while i < self.streams.len()
            invariant
                all == self@,
                all.len() == self.streams@.len(),
                i <= self.streams@.len(),
                i <= stream_position(all, guild, ssrc) <= all.len(),
                stream_position(all, guild, ssrc) < all.len() ==> is_stream(
                    all[stream_position(all, guild, ssrc)],
                    guild,
                    ssrc,
                ),
                forall|k: int|
                    0 <= k < stream_position(all, guild, ssrc) ==> !is_stream(
                        #[trigger] all[k],
                        guild,
                        ssrc,
                    ),
            decreases self.streams@.len() - i,
        {
            assert(all[i as int] == self.streams@[i as int]@);
            if self.streams[i].guild == guild && self.streams[i].ssrc == ssrc {
                return i;
            }
            i += 1;
        }
        i
    }

    fn drop_stale(&mut self, now: Nanos)
        ensures
            final(self)@ == recent_streams(old(self)@, now),
    {
        let mut all: Vec<UnknownSsrcAudio> = Vec::new();
        std::mem::swap(&mut all, &mut self.streams);
        let ghost views = old(self)@;
        let ghost recent = |audio: UnknownAudio|
            time::elapsed(now, audio.last_update) <= UNKNOWN_SSRC_RETENTION;
        proof {
            seqs::lemma_filter_empty(views, recent);
        }
        assert(self@ =~= Seq::<UnknownAudio>::empty());
        for audio in it: all
            invariant
                it.seq().map_values(|audio: UnknownSsrcAudio| audio@) == views,
                recent == (|audio: UnknownAudio|
                    time::elapsed(now, audio.last_update) <= UNKNOWN_SSRC_RETENTION),
                self@ == views.take(it.index() as int).filter(recent),
        {
            let ghost i = it.index() as int;
            let ghost before = self@;
            assert(audio@ == views[i]);
            proof {
                seqs::lemma_filter_take(views, recent, i);
            }
            if time::saturating_elapsed(now, audio.last_update) <= UNKNOWN_SSRC_RETENTION {
                self.streams.push(audio);
                assert(self@ =~= before.push(views[i]));
            }
        }
    }

    /// Takes note of audio of a stream whose user is not known.
    pub fn push_unknown_ssrc_audio(&mut self, guild: u64, ssrc: u32, decoded: &[i16], now: Nanos)
        requires
            old(self).wf(),
        ensures
            final(self)@ == streams_heard(old(self)@, guild, ssrc, decoded@, now),
            final(self).wf(),
    {
        proof {
            law_streams_stay_bounded(self@, guild, ssrc, decoded@, now);
        }
        self.drop_stale(now);
        let ghost kept = self@;
        let at: usize = self.position(guild, ssrc);
        if at < self.streams.len() {
            let mut audio = self.streams.remove(at);
            assert(audio@ == kept[at as int]);
            audio.push(decoded, now);
            self.streams.insert(at, audio);
            assert(self@ =~= kept.update(at as int, heard(kept[at as int], decoded@, now)));
            return;
        }
        if self.streams.len() >= UNKNOWN_SSRC_MAX_TRACKED {
            return;
        }
        let mut audio = UnknownSsrcAudio::new(guild, ssrc, now);
        audio.push(decoded, now);
        self.streams.push(audio);
        assert(self@ =~= kept.push(heard(unheard(guild, ssrc, now), decoded@, now)));
    }

    /// Takes out the audio of a stream whose user has become known.
    pub fn take_unknown_ssrc_audio(&mut self, guild: u64, ssrc: u32) -> (r: Vec<i16>)
        requires
            old(self).wf(),
        ensures
            (r@, final(self)@) == stream_taken(old(self)@, guild, ssrc),
            final(self).wf(),
    {
        proof {
            law_streams_stay_bounded(self@, guild, ssrc, Seq::empty(), 0);
        }
        let ghost all = self@;
        let at: usize = self.position(guild, ssrc);
        if at < self.streams.len() {
            let audio = self.streams.remove(at);
            assert(audio@ == all[at as int]);
            assert(self@ =~= all.remove(at as int));
            audio.samples
        } else {
            Vec::new()
        }
    }

    /// Drops the audio of a guild's streams.
    pub fn clear_unknown_ssrc_audio_for_guild(&mut self, guild: u64)
        requires
            old(self).wf(),
        ensures
            final(self)@ == old(self)@.filter(|audio: UnknownAudio| audio.guild != guild),
            final(self).wf(),
    {
        proof {
            law_streams_stay_bounded(self@, guild, 0, Seq::empty(), 0);
        }
        let mut all: Vec<UnknownSsrcAudio> = Vec::new();
        std::mem::swap(&mut all, &mut self.streams);
        let ghost views = old(self)@;
        let ghost other = |audio: UnknownAudio| audio.guild != guild;
        proof {
            seqs::lemma_filter_empty(views, other);
        }
        assert(self@ =~= Seq::<UnknownAudio>::empty());
        for audio in it: all
            invariant
                it.seq().map_values(|audio: UnknownSsrcAudio| audio@) == views,
                other == (|audio: UnknownAudio| audio.guild != guild),
                self@ == views.take(it.index() as int).filter(other),
        {
            let ghost i = it.index() as int;
            let ghost before = self@;
            assert(audio@ == views[i]);
            proof {
                seqs::lemma_filter_take(views, other, i);
            }
            if audio.guild != guild {
                self.streams.push(audio);
                assert(self@ =~= before.push(views[i]));
            }
        }
    }
}

/// The last samples of a longer run: all of them up to 96000, and never more.
pub open spec fn is_recent_end(end: Seq<i16>, all: Seq<i16>) -> bool {
    &&& end.len() <= 96_000
    &&& end.len() == all.len() || end.len() == 96_000
    &&& end.len() <= all.len()
    &&& end == all.subrange(all.len() - end.len(), all.len() as int)
}

proof fn lemma_recent_end(all: Seq<i16>)
    ensures
        is_recent_end(last_elements(all, UNKNOWN_SSRC_MAX_SAMPLES as int), all),
{
    let end = last_elements(all, UNKNOWN_SSRC_MAX_SAMPLES as int);
    assert(end =~= all.subrange(all.len() - end.len(), all.len() as int));
}

/// At most eight streams are held, none twice, and of each at most 96000 samples.
pub proof fn law_little_is_held(streams: Seq<UnknownAudio>)
    ensures
        streams_bounded(streams) <==> {
            &&& streams.len() <= 8
            &&& forall|i: int|
                0 <= i < streams.len() ==> (#[trigger] streams[i]).samples.len() <= 96_000
            &&& forall|i: int, j: int|
                0 <= i < streams.len() && 0 <= j < streams.len() && i != j ==> (
                #[trigger] streams[i]).guild != (#[trigger] streams[j]).guild || streams[i].ssrc
                    != streams[j].ssrc
        },
{
}

/// Audio that comes in goes behind what is held of its stream, where that is at most a second old,
/// and starts a new stream otherwise, unless eight other streams are held. Of every other stream
/// what is held stays as it is, or is dropped once it is more than a second old.
pub proof fn law_unknown_audio_is_held(
    streams: Seq<UnknownAudio>,
    guild: u64,
    ssrc: u32,
    decoded: Seq<i16>,
    now: Nanos,
    i: int,
)
    requires
        streams_bounded(streams),
    ensures
        ({
            let after = streams_heard(streams, guild, ssrc, decoded, now);
            &&& after.len() <= 8
            &&& 0 <= i < streams.len() ==> {
                let held = streams[i];
                let recent = now <= held.last_update + 1_000_000_000;
                let same = held.guild == guild && held.ssrc == ssrc;
                &&& !same ==> (after.contains(held) <==> recent)
                &&& same && recent ==> exists|k: int|
                    {
                        &&& 0 <= k < after.len()
                        &&& (#[trigger] after[k]).guild == guild
                        &&& after[k].ssrc == ssrc
                        &&& after[k].last_update == now
                        &&& is_recent_end(after[k].samples, held.samples + decoded)
                    }
            }
            &&& 0 <= i < after.len() ==> {
                let held = after[i];
                if held.guild != guild || held.ssrc != ssrc {
                    streams.contains(held)
                } else {
                    held.last_update == now
                }
            }
            &&& (forall|k: int|
                0 <= k < streams.len() && (#[trigger] streams[k]).guild == guild && streams[k].ssrc
                    == ssrc ==> now > streams[k].last_update + 1_000_000_000) ==> {
                ||| after.len() == 8 && forall|k: int|
                    0 <= k < after.len() ==> (#[trigger] after[k]).guild != guild || after[k].ssrc
                        != ssrc
                ||| after.len() > 0 && after.last().guild == guild && after.last().ssrc == ssrc
                    && is_recent_end(after.last().samples, decoded)
            }
        }),
{
    let keep = |audio: UnknownAudio|
        time::elapsed(now, audio.last_update) <= UNKNOWN_SSRC_RETENTION;
    let kept = recent_streams(streams, now);
    let after = streams_heard(streams, guild, ssrc, decoded, now);
    law_streams_stay_bounded(streams, guild, ssrc, decoded, now);
    lemma_filter_bounded(streams, keep);
    lemma_stream_position(kept, guild, ssrc);
    let at = stream_position(kept, guild, ssrc);
    assert forall|j: int| 0 <= j < kept.len() implies keep(#[trigger] kept[j]) && streams.contains(
        kept[j],
    ) by {
        seqs::lemma_filter_member(streams, keep, j);
    }
    if 0 <= i < streams.len() {
        let held = streams[i];
        let recent = now <= held.last_update + 1_000_000_000;
        assert(keep(held) <==> recent);
        if recent {
            seqs::lemma_filter_keeps(streams, keep, i);
            let j = choose|j: int| 0 <= j < kept.len() && kept[j] == held;
            if is_stream(held, guild, ssrc) {
                assert(at == j);
                lemma_recent_end(held.samples + decoded);
                assert(is_recent_end(after[at].samples, held.samples + decoded));
            } else {
                assert(after[j] == held);
            }
        } else if !is_stream(held, guild, ssrc) && after.contains(held) {
            let k = choose|k: int| 0 <= k < after.len() && after[k] == held;
            assert(k < kept.len() && kept[k] == held);
        }
    }
    if 0 <= i < after.len() && !is_stream(after[i], guild, ssrc) {
        assert(kept[i] == after[i]);
    }
    if forall|k: int|
        0 <= k < streams.len() && (#[trigger] streams[k]).guild == guild && streams[k].ssrc == ssrc
            ==> now > streams[k].last_update + 1_000_000_000 {
        if at < kept.len() {
            assert(streams.contains(kept[at]));
            let k = choose|k: int| 0 <= k < streams.len() && streams[k] == kept[at];
            assert(keep(streams[k]));
        } else if kept.len() < 8 {
            assert(Seq::<i16>::empty() + decoded =~= decoded);
            lemma_recent_end(decoded);
        }
    }
}

/// Taking a stream hands out all that is held of it, and leaves the others as they are and in their
/// order. Nothing is left of it, so a second time there is nothing to take.
pub proof fn law_unknown_audio_is_taken_once(
    streams: Seq<UnknownAudio>,
    guild: u64,
    ssrc: u32,
    i: int,
)
    requires
        streams_bounded(streams),
    ensures
        ({
            let (samples, rest) = stream_taken(streams, guild, ssrc);
            &&& 0 <= i < streams.len() && streams[i].guild == guild && streams[i].ssrc == ssrc ==> {
                &&& samples == streams[i].samples
                &&& rest == streams.remove(i)
            }
            &&& (forall|k: int|
                0 <= k < streams.len() ==> (#[trigger] streams[k]).guild != guild || streams[k].ssrc
                    != ssrc) ==> samples.len() == 0 && rest == streams
            &&& forall|k: int|
                0 <= k < rest.len() ==> (#[trigger] rest[k]).guild != guild || rest[k].ssrc != ssrc
            &&& stream_taken(rest, guild, ssrc).0.len() == 0
        }),
{
    lemma_stream_position(streams, guild, ssrc);
    let at = stream_position(streams, guild, ssrc);
    let rest = stream_taken(streams, guild, ssrc).1;
    lemma_stream_position(rest, guild, ssrc);
    if 0 <= i < streams.len() && is_stream(streams[i], guild, ssrc) {
        assert(at <= i);
        assert(at == i);
    }
    if at < streams.len() {
        assert forall|k: int| 0 <= k < rest.len() implies !is_stream(
            #[trigger] rest[k],
            guild,
            ssrc,
        ) by {
            if k < at {
                assert(rest[k] == streams[k]);
            } else {
                assert(rest[k] == streams[k + 1]);
                assert(!is_stream(streams[k + 1], streams[at].guild, streams[at].ssrc));
            }
        }
    }
}

} // verus!
