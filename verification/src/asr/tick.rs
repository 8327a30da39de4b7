//! One voice tick of a call: whose audio came in, which utterances are complete, what to decode.
use std::collections::HashMap;

use vstd::prelude::*;

use crate::asr::audio;
use crate::asr::audio::{
    advance_silence, append_processed_chunk, IngestOutcome, IngestParams, ProcessedSpeechChunk,
};
use crate::asr::directory::SsrcDirectory;
use crate::asr::pipeline;
use crate::asr::pipeline::{should_dispatch_chunk, trim_finalize_tail, UserAudioBuffer};
use crate::asr::unknown;
use crate::asr::unknown::UnknownSsrcBuffers;
use crate::maps;
use crate::time::Nanos;

verus! {

broadcast use {
    vstd::seq::group_seq_axioms,
    vstd::set::group_set_axioms,
    vstd::map::group_map_axioms,
    vstd::std_specs::hash::group_hash_axioms,
};

// ---------------------------------------------------------------------------
// Whose audio came in
// ---------------------------------------------------------------------------

/// What one stream brought in a tick: whether a packet came, and the stereo audio decoded from it.
pub struct TickSource {
    pub ssrc: u32,
    pub has_packet: bool,
    pub decoded: Option<Vec<i16>>,
}

/// What a `TickSource` holds.
pub ghost struct SourceView {
    pub ssrc: u32,
    pub has_packet: bool,
    pub decoded: Option<Seq<i16>>,
}

impl View for TickSource {
    type V = SourceView;

    open spec fn view(&self) -> SourceView {
        SourceView {
            ssrc: self.ssrc,
            has_packet: self.has_packet,
            decoded: match self.decoded {
                Some(decoded) => Some(decoded@),
                None => None,
            },
        }
    }
}

/// Audio of a known user.
pub struct RoutedAudio {
    pub user: u64,
    pub ssrc: u32,
    pub pcm: Vec<i16>,
}

/// What a `RoutedAudio` holds.
pub ghost struct RoutedView {
    pub user: u64,
    pub ssrc: u32,
    pub pcm: Seq<i16>,
}

impl View for RoutedAudio {
    type V = RoutedView;

    open spec fn view(&self) -> RoutedView {
        RoutedView { user: self.user, ssrc: self.ssrc, pcm: self.pcm@ }
    }
}

/// How many streams of a tick had a packet that was not decoded, had audio of an unknown user, and
/// had audio of a known user.
#[derive(Clone, Copy)]
pub struct RouteCounts {
    pub decode_failures: usize,
    pub unmapped: usize,
    pub decoded: usize,
}

/// Where the streams of a tick have gone so far.
#[verifier::ext_equal]
pub ghost struct RouteState {
    pub unknown: Seq<unknown::UnknownAudio>,
    pub routed: Seq<RoutedView>,
    pub decode_failures: nat,
    pub unmapped: nat,
    pub decoded: nat,
}

/// One stream more. Audio of an unknown user is kept; audio of a known user follows what was kept
/// of the stream while the user was not known.
pub open spec fn route_one(
    state: RouteState,
    guild: u64,
    users: Map<(u64, u32), u64>,
    source: SourceView,
    now: Nanos,
) -> RouteState {
    match source.decoded {
        None => RouteState {
            decode_failures: state.decode_failures + (if source.has_packet {
                1nat
            } else {
                0nat
            }),
            ..state
        },
        Some(decoded) => {
            if users.contains_key((guild, source.ssrc)) {
                let (replay, rest) = unknown::stream_taken(state.unknown, guild, source.ssrc);
                RouteState {
                    unknown: rest,
                    routed: state.routed.push(
                        RoutedView {
                            user: users[(guild, source.ssrc)],
                            ssrc: source.ssrc,
                            pcm: replay + decoded,
                        },
                    ),
                    decoded: state.decoded + 1,
                    ..state
                }
            } else {
                RouteState {
                    unknown: unknown::streams_heard(
                        state.unknown,
                        guild,
                        source.ssrc,
                        decoded,
                        now,
                    ),
                    unmapped: state.unmapped + 1,
                    ..state
                }
            }
        },
    }
}

/// Where the streams of a tick go, one after another.
pub open spec fn route_all(
    unknown: Seq<unknown::UnknownAudio>,
    guild: u64,
    users: Map<(u64, u32), u64>,
    sources: Seq<SourceView>,
    now: Nanos,
) -> RouteState
    decreases sources.len(),
{
    if sources.len() == 0 {
        RouteState { unknown, routed: Seq::empty(), decode_failures: 0, unmapped: 0, decoded: 0 }
    } else {
        route_one(
            route_all(unknown, guild, users, sources.drop_last(), now),
            guild,
            users,
            sources.last(),
            now,
        )
    }
}

/// The streams that a tick brought.
pub open spec fn source_views(sources: Seq<TickSource>) -> Seq<SourceView> {
    sources.map_values(|source: TickSource| source@)
}

/// The audio that goes to known users.
pub open spec fn routed_views(routed: Seq<RoutedAudio>) -> Seq<RoutedView> {
    routed.map_values(|audio: RoutedAudio| audio@)
}

/// Sorts the streams of a tick by whether their user is known.
pub fn route_tick(
    unknown: &mut UnknownSsrcBuffers,
    directory: &SsrcDirectory,
    guild: u64,
    sources: Vec<TickSource>,
    now: Nanos,
) -> (r: (Vec<RoutedAudio>, RouteCounts))
    requires
        old(unknown).wf(),
    ensures
        final(unknown).wf(),
        ({
            let state = route_all(old(unknown)@, guild, directory@, source_views(sources@), now);
            &&& final(unknown)@ == state.unknown
            &&& routed_views(r.0@) == state.routed
            &&& r.1.decode_failures == state.decode_failures
            &&& r.1.unmapped == state.unmapped
            &&& r.1.decoded == state.decoded
        }),
{
    let mut routed: Vec<RoutedAudio> = Vec::new();
    let mut counts = RouteCounts { decode_failures: 0, unmapped: 0, decoded: 0 };
    let ghost start = unknown@;
    let ghost views = source_views(sources@);
    let count: usize = sources.len();
    assert(routed_views(routed@) =~= Seq::<RoutedView>::empty());
    assert(views.take(0) =~= Seq::<SourceView>::empty());
    for source in it: sources
        invariant
            unknown.wf(),
            source_views(it.seq()) == views,
            it.seq().len() == count,
            unknown@ == route_all(start, guild, directory@, views.take(it.index() as int), now).unknown,
            routed_views(routed@) == route_all(
                start,
                guild,
                directory@,
                views.take(it.index() as int),
                now,
            ).routed,
            counts.decode_failures == route_all(
                start,
                guild,
                directory@,
                views.take(it.index() as int),
                now,
            ).decode_failures <= it.index(),
            counts.unmapped == route_all(
                start,
                guild,
                directory@,
                views.take(it.index() as int),
                now,
            ).unmapped <= it.index(),
            counts.decoded == route_all(
                start,
                guild,
                directory@,
                views.take(it.index() as int),
                now,
            ).decoded <= it.index(),
    {
        let ghost i = it.index() as int;
        let ghost before = routed_views(routed@);
        assert(source@ == views[i]);
        assert(views.take(i + 1).drop_last() =~= views.take(i));
        match source.decoded {
            None => {
                if source.has_packet {
                    counts.decode_failures += 1;
                }
            },
            Some(decoded) => {
                match directory.user_of(guild, source.ssrc) {
                    None => {
                        counts.unmapped += 1;
                        unknown.push_unknown_ssrc_audio(
                            guild,
                            source.ssrc,
                            decoded.as_slice(),
                            now,
                        );
                    },
                    Some(user) => {
                        counts.decoded += 1;
                        let mut decoded = decoded;
                        let mut pcm = unknown.take_unknown_ssrc_audio(guild, source.ssrc);
                        pcm.append(&mut decoded);
                        routed.push(RoutedAudio { user, ssrc: source.ssrc, pcm });
                        assert(routed_views(routed@) =~= before.push(routed@.last()@));
                    },
                }
            },
        }
    }
    assert(views.take(views.len() as int) =~= views);
    (routed, counts)
}

// ---------------------------------------------------------------------------
// Which utterances are complete
// ---------------------------------------------------------------------------

/// The audio of a call that has not been sent to the decoder yet, by user.
pub struct CallAudio<T> {
    streams: HashMap<u64, UserAudioBuffer<T>>,
    started: bool,
}

/// What a `CallAudio` holds: the users' buffers, and whether the start of the transcription has
/// been announced.
#[verifier::ext_equal]
pub ghost struct CallView<T> {
    pub streams: Map<u64, pipeline::BufferView<T>>,
    pub started: bool,
}

impl<T> View for CallAudio<T> {
    type V = CallView<T>;

    closed spec fn view(&self) -> CallView<T> {
        CallView {
            streams: self.streams@.map_values(|buffer: UserAudioBuffer<T>| buffer@),
            started: self.started,
        }
    }
}

/// Cleaned audio of one user, and the errors met in resampling it.
pub struct ProcessedSource<T> {
    pub user: u64,
    pub chunk: ProcessedSpeechChunk<T>,
    pub resample_errors: usize,
}

/// Why an utterance was complete.
#[derive(Clone, Copy, Debug, PartialEq, Eq, Structural)]
pub enum Stage {
    Rollover,
    Silence,
}

impl Stage {
    /// The name of the stage.
    pub open spec fn label(self) -> Seq<char> {
        match self {
            Stage::Rollover => "rollover"@,
            Stage::Silence => "silence"@,
        }
    }

    /// The name of the stage.
    pub fn name(self) -> (r: &'static str)
        ensures
            r@ == self.label(),
    {
        match self {
            Stage::Rollover => "rollover",
            Stage::Silence => "silence",
        }
    }
}

/// An utterance for the decoder.
pub struct DecodeRequest<T> {
    pub user: u64,
    pub start_ts: Nanos,
    pub stage: Stage,
    pub pcm: Vec<T>,
}

/// What a `DecodeRequest` holds.
pub ghost struct RequestView<T> {
    pub user: u64,
    pub start_ts: Nanos,
    pub stage: Stage,
    pub pcm: Seq<T>,
}

impl<T> View for DecodeRequest<T> {
    type V = RequestView<T>;

    open spec fn view(&self) -> RequestView<T> {
        RequestView {
            user: self.user,
            start_ts: self.start_ts,
            stage: self.stage,
            pcm: self.pcm@,
        }
    }
}

/// The utterances for the decoder.
pub open spec fn request_views<T>(requests: Seq<DecodeRequest<T>>) -> Seq<RequestView<T>> {
    requests.map_values(|request: DecodeRequest<T>| request@)
}

/// What a tick comes to: the utterances for the decoder, how many the dispatch gate held back, the
/// resampling errors, and whether the start of the transcription
/// is to be announced.
pub struct TickOutcome<T> {
    pub requests: Vec<DecodeRequest<T>>,
    pub gated: usize,
    pub resample_errors: usize,
    pub announce: bool,
}

/// How far a tick has come.
#[verifier::ext_equal]
pub ghost struct TickState<T> {
    pub call: CallView<T>,
    pub speaking: Seq<u64>,
    pub requests: Seq<RequestView<T>>,
    pub gated: nat,
    pub resample_errors: nat,
    pub announce: bool,
}

/// The state with a complete utterance sent to the decoder, or held back by the dispatch gate.
pub open spec fn gated_request<T>(
    state: TickState<T>,
    request: RequestView<T>,
    voiced_ticks: u32,
    below_floor: bool,
) -> TickState<T> {
    if voiced_ticks >= pipeline::DISPATCH_GATE_MIN_VOICED_TICKS && !below_floor {
        TickState { requests: state.requests.push(request), ..state }
    } else {
        TickState { gated: capped(state.gated + 1), ..state }
    }
}

/// The buffer of a user, empty where the user has none yet.
pub open spec fn buffer_of<T>(call: CallView<T>, user: u64) -> pipeline::BufferView<T> {
    if call.streams.contains_key(user) {
        call.streams[user]
    } else {
        pipeline::empty_buffer()
    }
}

/// `n`, as far as a counter reaches.
pub open spec fn capped(n: nat) -> nat {
    if n <= usize::MAX {
        n
    } else {
        usize::MAX as nat
    }
}

/// The state after cleaned audio of one user, when the places tried for a split have these levels
/// and the utterance, if one is complete, lies under the noise floor or not.
pub open spec fn source_after<T>(
    state: TickState<T>,
    source: ProcessedSource<T>,
    params: IngestParams,
    now: Nanos,
    levels: Seq<u32>,
    below_floor: bool,
) -> TickState<T> {
    let user = source.user;
    let speech = source.chunk.speech_active;
    let samples = source.chunk.pcm_16k@;
    let buffer = buffer_of(state.call, user);
    let (after, outcome) = audio::ingested(buffer, samples, speech, params, now, levels);
    let begins = audio::takes_in(buffer, samples, speech) && speech && !state.call.started;
    let taken = TickState {
        call: CallView {
            streams: state.call.streams.insert(user, after),
            started: state.call.started || begins,
        },
        speaking: if speech {
            state.speaking.push(user)
        } else {
            state.speaking
        },
        resample_errors: capped(state.resample_errors + source.resample_errors as nat),
        announce: state.announce || begins,
        ..state
    };
    match outcome {
        audio::OutcomeView::Rollover { start_ts, pcm, voiced_ticks } => gated_request(
            taken,
            RequestView { user, start_ts, stage: Stage::Rollover, pcm },
            voiced_ticks,
            below_floor,
        ),
        _ => taken,
    }
}

/// The audio of an utterance that is complete, where one is.
pub open spec fn completed<T>(outcome: audio::OutcomeView<T>) -> Option<Seq<T>> {
    match outcome {
        audio::OutcomeView::Pending => None,
        audio::OutcomeView::Rollover { pcm, .. } => Some(pcm),
        audio::OutcomeView::Endpoint { pcm, silent_ticks, .. } => Some(
            pipeline::trimmed_tail(pcm, silent_ticks),
        ),
    }
}

/// `answer` is an answer of `below_floor` for the user's utterance.
pub open spec fn floor_answer<T, G: Fn(u64, &[T]) -> bool>(
    below_floor: G,
    user: u64,
    pcm: Seq<T>,
    answer: bool,
) -> bool {
    exists|w: &[T]| w@ == pcm && #[trigger] call_ensures(below_floor, (user, w), answer)
}

/// The step from `state` to `next` by cleaned audio of one user, with the levels and the answer
/// that `loudness` and `below_floor` gave.
pub open spec fn source_decided<T, F: Fn(&[T]) -> u32, G: Fn(u64, &[T]) -> bool>(
    state: TickState<T>,
    source: ProcessedSource<T>,
    next: TickState<T>,
    params: IngestParams,
    now: Nanos,
    loudness: F,
    below_floor: G,
    levels: Seq<u32>,
    answer: bool,
) -> bool {
    let buffer = buffer_of(state.call, source.user);
    let samples = source.chunk.pcm_16k@;
    let speech = source.chunk.speech_active;
    let outcome = audio::ingested(buffer, samples, speech, params, now, levels).1;
    &&& audio::ingest_levels(loudness, buffer, samples, speech, params, levels)
    &&& completed(outcome) matches Some(pcm) ==> floor_answer(
        below_floor,
        source.user,
        pcm,
        answer,
    )
    &&& next == source_after(state, source, params, now, levels, answer)
}

/// The step from `state` to `next` by cleaned audio of one user.
pub open spec fn source_step<T, F: Fn(&[T]) -> u32, G: Fn(u64, &[T]) -> bool>(
    state: TickState<T>,
    source: ProcessedSource<T>,
    next: TickState<T>,
    params: IngestParams,
    now: Nanos,
    loudness: F,
    below_floor: G,
) -> bool {
    exists|levels: Seq<u32>, answer: bool| #[trigger]
        source_decided(
            state,
            source,
            next,
            params,
            now,
            loudness,
            below_floor,
            levels,
            answer,
        )
}

/// The state after a tick in which the user was silent. A user who spoke is left alone.
pub open spec fn silence_after<T>(
    state: TickState<T>,
    user: u64,
    params: IngestParams,
    now: Nanos,
    below_floor: bool,
) -> TickState<T> {
    let (after, outcome) = audio::silenced(
        state.call.streams[user],
        params.silence_ticks_threshold,
        now,
    );
    let waited = TickState {
        call: CallView { streams: state.call.streams.insert(user, after), ..state.call },
        ..state
    };
    if state.speaking.contains(user) {
        state
    } else {
        match outcome {
            audio::OutcomeView::Endpoint { start_ts, pcm, voiced_ticks, silent_ticks } => {
                gated_request(
                    waited,
                    RequestView {
                        user,
                        start_ts,
                        stage: Stage::Silence,
                        pcm: pipeline::trimmed_tail(pcm, silent_ticks),
                    },
                    voiced_ticks,
                    below_floor,
                )
            },
            _ => waited,
        }
    }
}

/// The step from `state` to `next` at the user's turn in the look for silence, with the answer
/// that `below_floor` gave.
pub open spec fn silence_decided<T, G: Fn(u64, &[T]) -> bool>(
    state: TickState<T>,
    user: u64,
    next: TickState<T>,
    params: IngestParams,
    now: Nanos,
    below_floor: G,
    answer: bool,
) -> bool {
    let outcome = audio::silenced(
        state.call.streams[user],
        params.silence_ticks_threshold,
        now,
    ).1;
    &&& !state.speaking.contains(user) && completed(outcome) is Some ==> floor_answer(
        below_floor,
        user,
        completed(outcome).unwrap(),
        answer,
    )
    &&& next == silence_after(state, user, params, now, answer)
}

/// The step from `state` to `next` at the user's turn in the look for silence.
pub open spec fn silence_step<T, G: Fn(u64, &[T]) -> bool>(
    state: TickState<T>,
    user: u64,
    next: TickState<T>,
    params: IngestParams,
    now: Nanos,
    below_floor: G,
) -> bool {
    exists|answer: bool| #[trigger]
        silence_decided(state, user, next, params, now, below_floor, answer)
}

/// A tick before anything is taken in.
pub open spec fn tick_begin<T>(call: CallView<T>) -> TickState<T> {
    TickState {
        call,
        speaking: Seq::empty(),
        requests: Seq::empty(),
        gated: 0,
        resample_errors: 0,
        announce: false,
    }
}

/// Step number `i` of `trace` is the one by source number `i`.
pub open spec fn source_step_at<T, F: Fn(&[T]) -> u32, G: Fn(u64, &[T]) -> bool>(
    trace: Seq<TickState<T>>,
    sources: Seq<ProcessedSource<T>>,
    i: int,
    params: IngestParams,
    now: Nanos,
    loudness: F,
    below_floor: G,
) -> bool {
    source_step(trace[i], sources[i], trace[i + 1], params, now, loudness, below_floor)
}

/// `trace` leads through the cleaned audio of all users, in its order.
pub open spec fn sources_traced<T, F: Fn(&[T]) -> u32, G: Fn(u64, &[T]) -> bool>(
    trace: Seq<TickState<T>>,
    call: CallView<T>,
    sources: Seq<ProcessedSource<T>>,
    params: IngestParams,
    now: Nanos,
    loudness: F,
    below_floor: G,
) -> bool {
    &&& trace.len() == sources.len() + 1
    &&& trace[0] == tick_begin(call)
    &&& forall|i: int|
        0 <= i < sources.len() ==> #[trigger] source_step_at(
            trace,
            sources,
            i,
            params,
            now,
            loudness,
            below_floor,
        )
}

/// `order` names each user of the call once.
pub open spec fn names_users<T>(order: Seq<u64>, call: CallView<T>) -> bool {
    order.no_duplicates() && forall|user: u64|
        order.contains(user) <==> #[trigger] call.streams.contains_key(user)
}

/// Step number `i` of `trace` is the turn of user number `i`.
pub open spec fn silence_step_at<T, G: Fn(u64, &[T]) -> bool>(
    trace: Seq<TickState<T>>,
    order: Seq<u64>,
    i: int,
    params: IngestParams,
    now: Nanos,
    below_floor: G,
) -> bool {
    silence_step(trace[i], order[i], trace[i + 1], params, now, below_floor)
}

/// `trace` leads from `begin` through the look for silence, in the given order of users.
pub open spec fn silence_traced<T, G: Fn(u64, &[T]) -> bool>(
    trace: Seq<TickState<T>>,
    begin: TickState<T>,
    order: Seq<u64>,
    params: IngestParams,
    now: Nanos,
    below_floor: G,
) -> bool {
    &&& trace.len() == order.len() + 1
    &&& trace[0] == begin
    &&& forall|i: int|
        0 <= i < order.len() ==> #[trigger] silence_step_at(
            trace,
            order,
            i,
            params,
            now,
            below_floor,
        )
}

/// A tick leads from `call` to `end`: the cleaned audio is taken in, then each user of the call
/// has a turn in the look for silence, in some order.
pub open spec fn tick_leads<T, F: Fn(&[T]) -> u32, G: Fn(u64, &[T]) -> bool>(
    call: CallView<T>,
    sources: Seq<ProcessedSource<T>>,
    end: TickState<T>,
    params: IngestParams,
    now: Nanos,
    loudness: F,
    below_floor: G,
) -> bool {
    exists|taken: Seq<TickState<T>>, order: Seq<u64>, waited: Seq<TickState<T>>|
        {
            &&& #[trigger] sources_traced(
                taken,
                call,
                sources,
                params,
                now,
                loudness,
                below_floor,
            )
            &&& names_users(order, taken.last().call)
            &&& #[trigger] silence_traced(waited, taken.last(), order, params, now, below_floor)
            &&& waited.last() == end
        }
}

impl<T> CallAudio<T> {
    /// A call without audio, of which nothing has been announced.
    pub fn new() -> (r: Self)
        ensures
            r@ == (CallView::<T> { streams: Map::empty(), started: false }),
    {
        let r = CallAudio { streams: HashMap::new(), started: false };
        assert(r@.streams =~= Map::empty());
        r
    }

    /// A call without audio, of which something may have been announced.
    pub(crate) fn begun(started: bool) -> (r: Self)
        ensures
            r@ == (CallView::<T> { streams: Map::empty(), started }),
    {
        let r = CallAudio { streams: HashMap::new(), started };
        assert(r@.streams =~= Map::empty());
        r
    }

    /// Whether the start of the transcription has been announced.
    pub(crate) fn is_started(&self) -> (r: bool)
        ensures
            r == self@.started,
    {
        self.started
    }

    /// The users with a buffer, each once, in some order.
    pub(crate) fn users(&self) -> (r: Vec<u64>)
        ensures
            r@.no_duplicates(),
            forall|user: u64| r@.contains(user) <==> #[trigger] self@.streams.contains_key(user),
    {
        let users = maps::keys_of(&self.streams);
        assert forall|user: u64| users@.contains(user) <==> #[trigger] self@.streams.contains_key(
            user,
        ) by {
            assert(self.streams@.contains_key(user) <==> self@.streams.contains_key(user));
        }
        users
    }

    /// Takes the buffer of a user out, an empty one where the user has none yet.
    pub(crate) fn take_buffer(&mut self, user: u64) -> (r: UserAudioBuffer<T>)
        ensures
            r@ == buffer_of(old(self)@, user),
            final(self)@ == (CallView {
                streams: old(self)@.streams.remove(user),
                ..old(self)@
            }),
    {
        let r = match self.streams.remove(&user) {
            Some(buffer) => buffer,
            None => UserAudioBuffer::default(),
        };
        assert(self@.streams =~= old(self)@.streams.remove(user));
        r
    }

    fn put_buffer(&mut self, user: u64, buffer: UserAudioBuffer<T>)
        ensures
            final(self)@ == (CallView {
                streams: old(self)@.streams.insert(user, buffer@),
                ..old(self)@
            }),
    {
        self.streams.insert(user, buffer);
        assert(self@.streams =~= old(self)@.streams.insert(user, buffer@));
    }
}

/// Sends a complete utterance to the decoder, or holds it back.
fn gate_request<T, G: Fn(u64, &[T]) -> bool>(
    out: &mut TickOutcome<T>,
    request: DecodeRequest<T>,
    voiced_ticks: u32,
    below_floor: G,
) -> (r: Ghost<bool>)
    requires
        forall|user: u64, w: &[T]| #[trigger] call_requires(below_floor, (user, w)),
    ensures
        floor_answer(below_floor, request.user, request.pcm@, r@),
        final(out).announce == old(out).announce,
        final(out).resample_errors == old(out).resample_errors,
        voiced_ticks >= pipeline::DISPATCH_GATE_MIN_VOICED_TICKS && !r@ ==> request_views(
            final(out).requests@,
        ) == request_views(old(out).requests@).push(request@) && final(out).gated == old(out).gated,
        !(voiced_ticks >= pipeline::DISPATCH_GATE_MIN_VOICED_TICKS && !r@) ==> final(out).requests@
            == old(out).requests@ && final(out).gated == capped(old(out).gated as nat + 1),
{
    let ghost before = request_views(out.requests@);
    let below: bool = below_floor(request.user, request.pcm.as_slice());
    assert(floor_answer(below_floor, request.user, request.pcm@, below));
    match should_dispatch_chunk((), (), below, voiced_ticks) {
        Ok(()) => {
            out.requests.push(request);
            assert(request_views(out.requests@) =~= before.push(request@));
        },
        Err(_) => {
            out.gated = out.gated.saturating_add(1);
        },
    }
    Ghost(below)
}

/// How far a tick has come, out of what is kept while it runs.
spec fn tick_state<T>(call: CallView<T>, speaking: Seq<u64>, out: TickOutcome<T>) -> TickState<T> {
    TickState {
        call,
        speaking,
        requests: request_views(out.requests@),
        gated: out.gated as nat,
        resample_errors: out.resample_errors as nat,
        announce: out.announce,
    }
}

fn contains_user(list: &Vec<u64>, user: u64) -> (r: bool)
    ensures
        r == list@.contains(user),
{
    for i in 0..list.len()
        invariant
            forall|j: int| 0 <= j < i ==> list@[j] != user,
    {
        if list[i] == user {
            return true;
        }
    }
    false
}

impl<T> CallAudio<T> {
    /// Takes cleaned audio of one user in.
    fn ingest_source<F: Fn(&[T]) -> u32, G: Fn(u64, &[T]) -> bool>(
        &mut self,
        speaking: &mut Vec<u64>,
        out: &mut TickOutcome<T>,
        source: ProcessedSource<T>,
        params: IngestParams,
        now: Nanos,
        loudness: F,
        below_floor: G,
    )
        requires
            forall|w: &[T]| #[trigger] call_requires(loudness, (w,)),
            forall|user: u64, w: &[T]| #[trigger] call_requires(below_floor, (user, w)),
        ensures
            source_step(
                tick_state(old(self)@, old(speaking)@, *old(out)),
                source,
                tick_state(final(self)@, final(speaking)@, *final(out)),
                params,
                now,
                loudness,
                below_floor,
            ),
    {
        let ghost state = tick_state(self@, speaking@, *out);
        let user: u64 = source.user;
        let speech: bool = source.chunk.speech_active;
        let ghost samples = source.chunk.pcm_16k@;
        let mut buffer = self.take_buffer(user);
        let ghost before = buffer@;
        out.resample_errors = out.resample_errors.saturating_add(source.resample_errors);
        if speech {
            speaking.push(user);
        }
        if speech && source.chunk.pcm_16k.len() > 0 && !self.started {
            self.started = true;
            out.announce = true;
        }
        let outcome = append_processed_chunk(&mut buffer, source.chunk, params, now, loudness);
        let ghost levels = choose|levels: Seq<u32>|
            #[trigger] audio::ingest_levels(loudness, before, samples, speech, params, levels) && (
            buffer@,
            outcome@,
        ) == audio::ingested(before, samples, speech, params, now, levels);
        let ghost after = buffer@;
        self.put_buffer(user, buffer);
        assert(self@.streams =~= state.call.streams.insert(user, after));
        match outcome {
            IngestOutcome::Rollover { start_ts, pcm, voiced_ticks } => {
                let request = DecodeRequest { user, start_ts, stage: Stage::Rollover, pcm };
                let answer = gate_request(out, request, voiced_ticks, below_floor);
                assert(source_decided(
                    state,
                    source,
                    tick_state(self@, speaking@, *out),
                    params,
                    now,
                    loudness,
                    below_floor,
                    levels,
                    answer@,
                ));
            },
            _ => {
                assert(source_decided(
                    state,
                    source,
                    tick_state(self@, speaking@, *out),
                    params,
                    now,
                    loudness,
                    below_floor,
                    levels,
                    false,
                ));
            },
        }
    }

    /// Gives a user a turn in the look for silence.
    fn wait_for_user<G: Fn(u64, &[T]) -> bool>(
        &mut self,
        speaking: &Vec<u64>,
        out: &mut TickOutcome<T>,
        user: u64,
        params: IngestParams,
        now: Nanos,
        below_floor: G,
    )
        requires
            forall|user: u64, w: &[T]| #[trigger] call_requires(below_floor, (user, w)),
            old(self)@.streams.contains_key(user),
        ensures
            silence_step(
                tick_state(old(self)@, speaking@, *old(out)),
                user,
                tick_state(final(self)@, speaking@, *final(out)),
                params,
                now,
                below_floor,
            ),
    {
        let ghost state = tick_state(self@, speaking@, *out);
        if contains_user(speaking, user) {
            assert(silence_decided(state, user, state, params, now, below_floor, false));
            return;
        }
        let mut buffer = self.take_buffer(user);
        let outcome = advance_silence(&mut buffer, params, now);
        let ghost after = buffer@;
        self.put_buffer(user, buffer);
        assert(self@.streams =~= state.call.streams.insert(user, after));
        match outcome {
            IngestOutcome::Endpoint { start_ts, pcm, voiced_ticks, silent_ticks } => {
                let mut pcm = pcm;
                trim_finalize_tail(&mut pcm, silent_ticks);
                let request = DecodeRequest { user, start_ts, stage: Stage::Silence, pcm };
                let answer = gate_request(out, request, voiced_ticks, below_floor);
                assert(silence_decided(
                    state,
                    user,
                    tick_state(self@, speaking@, *out),
                    params,
                    now,
                    below_floor,
                    answer@,
                ));
            },
            _ => {
                assert(silence_decided(
                    state,
                    user,
                    tick_state(self@, speaking@, *out),
                    params,
                    now,
                    below_floor,
                    false,
                ));
            },
        }
    }

    /// Takes the cleaned audio of a tick in, and looks for users who have fallen silent.
    /// `loudness` gives the level of a window of audio; `below_floor` says of a user's utterance
    /// whether it lies under that user's noise floor.
    pub fn ingest_tick<F: Copy + Fn(&[T]) -> u32, G: Copy + Fn(u64, &[T]) -> bool>(
        &mut self,
        sources: Vec<ProcessedSource<T>>,
        params: IngestParams,
        now: Nanos,
        loudness: F,
        below_floor: G,
    ) -> (r: TickOutcome<T>)
        requires
            forall|w: &[T]| #[trigger] call_requires(loudness, (w,)),
            forall|user: u64, w: &[T]| #[trigger] call_requires(below_floor, (user, w)),
        ensures
            exists|end: TickState<T>|
                {
                    &&& #[trigger] tick_leads(
                        old(self)@,
                        sources@,
                        end,
                        params,
                        now,
                        loudness,
                        below_floor,
                    )
                    &&& final(self)@ == end.call
                    &&& request_views(r.requests@) == end.requests
                    &&& r.gated == end.gated
                    &&& r.resample_errors == end.resample_errors
                    &&& r.announce == end.announce
                },
    {
        let mut out = TickOutcome {
            requests: Vec::new(),
            gated: 0,
            resample_errors: 0,
            announce: false,
        };
        let mut speaking: Vec<u64> = Vec::new();
        let ghost call = self@;
        let ghost all = sources@;
        assert(request_views(out.requests@) =~= Seq::<RequestView<T>>::empty());
        let ghost mut taken: Seq<TickState<T>> = seq![tick_state(self@, speaking@, out)];
        for source in it: sources
            invariant
                forall|w: &[T]| #[trigger] call_requires(loudness, (w,)),
                forall|user: u64, w: &[T]| #[trigger] call_requires(below_floor, (user, w)),
                it.seq() == all,
                sources_traced(
                    taken,
                    call,
                    all.take(it.index() as int),
                    params,
                    now,
                    loudness,
                    below_floor,
                ),
                taken.last() == tick_state(self@, speaking@, out),
        {
            let ghost i = it.index() as int;
            self.ingest_source(
                &mut speaking,
                &mut out,
                source,
                params,
                now,
                loudness,
                below_floor,
            );
            proof {
                let next = tick_state(self@, speaking@, out);
                let longer = taken.push(next);
                assert forall|k: int| 0 <= k < all.take(i + 1).len() implies #[trigger] source_step_at(
                    longer,
                    all.take(i + 1),
                    k,
                    params,
                    now,
                    loudness,
                    below_floor,
                ) by {
                    if k < i {
                        assert(source_step_at(
                            taken,
                            all.take(i),
                            k,
                            params,
                            now,
                            loudness,
                            below_floor,
                        ));
                    }
                }
                taken = longer;
            }
        }
        assert(all.take(all.len() as int) =~= all);
        let ghost begin = taken.last();
        let order = maps::keys_of(&self.streams);
        assert(names_users(order@, self@));
        let ghost mut waited: Seq<TickState<T>> = seq![begin];
        for i in 0..order.len()
            invariant
                forall|user: u64, w: &[T]| #[trigger] call_requires(below_floor, (user, w)),
                begin.speaking == speaking@,
                names_users(order@, begin.call),
                forall|user: u64| #[trigger]
                    begin.call.streams.contains_key(user) ==> self@.streams.contains_key(user),
                silence_traced(waited, begin, order@.take(i as int), params, now, below_floor),
                waited.last() == tick_state(self@, speaking@, out),
        {
            let user: u64 = order[i];
            assert(order@.contains(user) && begin.call.streams.contains_key(user));
            self.wait_for_user(&speaking, &mut out, user, params, now, below_floor);
            proof {
                let next = tick_state(self@, speaking@, out);
                let longer = waited.push(next);
                let taken_order = order@.take(i + 1);
                assert forall|k: int| 0 <= k < taken_order.len() implies #[trigger] silence_step_at(
                    longer,
                    taken_order,
                    k,
                    params,
                    now,
                    below_floor,
                ) by {
                    if k < i {
                        assert(silence_step_at(
                            waited,
                            order@.take(i as int),
                            k,
                            params,
                            now,
                            below_floor,
                        ));
                    }
                }
                waited = longer;
            }
        }
        assert(order@.take(order@.len() as int) =~= order@);
        proof {
            let end = waited.last();
            assert(tick_leads(call, all, end, params, now, loudness, below_floor));
        }
        out
    }
}

// ---------------------------------------------------------------------------
// Audio that is left when a connection ends
// ---------------------------------------------------------------------------

/// A user's audio, taken out of the call.
pub struct DetachedAudioBuffer<T> {
    pub user_id: u64,
    pub buffer: UserAudioBuffer<T>,
}

/// The list holds the buffer of every user who has audio once, in some order.
pub open spec fn lists_buffers<T>(
    list: Seq<DetachedAudioBuffer<T>>,
    streams: Map<u64, pipeline::BufferView<T>>,
) -> bool {
    &&& forall|i: int|
        0 <= i < list.len() ==> streams.contains_key((#[trigger] list[i]).user_id)
            && streams[list[i].user_id] == list[i].buffer@ && list[i].buffer@.pcm.len() > 0
    &&& forall|i: int, j: int|
        0 <= i < list.len() && 0 <= j < list.len() && i != j ==> (#[trigger] list[i]).user_id != (
        #[trigger] list[j]).user_id
    &&& forall|user: u64| #[trigger]
        streams.contains_key(user) && streams[user].pcm.len() > 0 ==> exists|i: int|
            0 <= i < list.len() && (#[trigger] list[i]).user_id == user
}

impl<T> CallAudio<T> {
    /// Whether a user has a buffer.
    pub fn contains_user(&self, user: u64) -> (r: bool)
        ensures
            r == self@.streams.contains_key(user),
    {
        self.streams.contains_key(&user)
    }

    /// Sets the buffer of a user.
    pub fn insert(&mut self, user: u64, buffer: UserAudioBuffer<T>)
        ensures
            final(self)@ == (CallView {
                streams: old(self)@.streams.insert(user, buffer@),
                ..old(self)@
            }),
    {
        self.put_buffer(user, buffer);
    }

    /// Whether any user has audio that has not been sent to the decoder.
    pub fn has_audio(&self) -> (r: bool)
        ensures
            r == exists|user: u64| #[trigger]
                self@.streams.contains_key(user) && self@.streams[user].pcm.len() > 0,
    {
        let users = maps::keys_of(&self.streams);
        for i in 0..users.len()
            invariant
                forall|user: u64| users@.contains(user) <==> #[trigger] self.streams@.contains_key(
                    user,
                ),
                forall|j: int|
                    0 <= j < i ==> self.streams@[#[trigger] users@[j]].pcm@.len() == 0,
        {
            let user: u64 = users[i];
            assert(users@.contains(user) && self.streams@.contains_key(user));
            if let Some(buffer) = self.streams.get(&user) {
                if buffer.pcm.len() > 0 {
                    assert(self@.streams.contains_key(user));
                    return true;
                }
            }
        }
        assert forall|user: u64| #[trigger] self@.streams.contains_key(user) implies
            self@.streams[user].pcm.len() == 0 by {
            assert(self.streams@.contains_key(user) && users@.contains(user));
            let j = choose|j: int| 0 <= j < users@.len() && users@[j] == user;
            assert(users@[j] == user);
        }
        false
    }

    /// Takes all buffers out, and hands those out that hold audio.
    pub fn detach_audio_buffers(&mut self) -> (r: Vec<DetachedAudioBuffer<T>>)
        ensures
            final(self)@ == (CallView { streams: Map::empty(), ..old(self)@ }),
            lists_buffers(r@, old(self)@.streams),
    {
        let users = maps::keys_of(&self.streams);
        let ghost before = self@.streams;
        let ghost started = self.started;
        assert forall|user: u64| users@.contains(user) <==> #[trigger] before.contains_key(user) by {
            assert(self.streams@.contains_key(user) <==> before.contains_key(user));
        }
        let mut detached: Vec<DetachedAudioBuffer<T>> = Vec::new();
        for i in 0..users.len()
            invariant
                users@.no_duplicates(),
                forall|user: u64| users@.contains(user) <==> #[trigger] before.contains_key(user),
                self.started == started,
                forall|user: u64| #[trigger]
                    self@.streams.contains_key(user) ==> before.contains_key(user)
                        && self@.streams[user] == before[user],
                forall|j: int| 0 <= j < i ==> !self@.streams.contains_key(#[trigger] users@[j]),
                forall|j: int|
                    i <= j < users@.len() ==> self@.streams.contains_key(#[trigger] users@[j]),
                forall|k: int|
                    0 <= k < detached@.len() ==> before.contains_key(
                        (#[trigger] detached@[k]).user_id,
                    ) && before[detached@[k].user_id] == detached@[k].buffer@
                        && detached@[k].buffer@.pcm.len() > 0 && !self@.streams.contains_key(
                        detached@[k].user_id,
                    ),
                forall|k: int, l: int|
                    0 <= k < detached@.len() && 0 <= l < detached@.len() && k != l ==> (
                    #[trigger] detached@[k]).user_id != (#[trigger] detached@[l]).user_id,
                forall|j: int|
                    0 <= j < i && before[#[trigger] users@[j]].pcm.len() > 0 ==> exists|k: int|
                        0 <= k < detached@.len() && (#[trigger] detached@[k]).user_id == users@[j],
        {
            let user: u64 = users[i];
            assert(self@.streams.contains_key(users@[i as int]));
            let ghost earlier = detached@;
            let buffer = self.take_buffer(user);
            if buffer.pcm.len() > 0 {
                detached.push(DetachedAudioBuffer { user_id: user, buffer });
                assert(detached@[earlier.len() as int].user_id == user);
            }
            assert forall|j: int| 0 <= j < i + 1 && before[#[trigger] users@[j]].pcm.len()
                > 0 implies exists|k: int|
                0 <= k < detached@.len() && (#[trigger] detached@[k]).user_id == users@[j] by {
                if j < i {
                    let k = choose|k: int|
                        0 <= k < earlier.len() && (#[trigger] earlier[k]).user_id == users@[j];
                    assert(detached@[k].user_id == users@[j]);
                }
            }
        }
        assert forall|user: u64| !#[trigger] self@.streams.contains_key(user) by {
            if self@.streams.contains_key(user) {
                assert(before.contains_key(user) && users@.contains(user));
                let j = choose|j: int| 0 <= j < users@.len() && users@[j] == user;
                assert(!self@.streams.contains_key(users@[j]));
            }
        }
        assert(self@.streams =~= Map::empty());
        assert forall|user: u64| #[trigger]
            before.contains_key(user) && before[user].pcm.len() > 0 implies exists|k: int|
            0 <= k < detached@.len() && (#[trigger] detached@[k]).user_id == user by {
            assert(users@.contains(user));
            let j = choose|j: int| 0 <= j < users@.len() && users@[j] == user;
            assert(before[users@[j]].pcm.len() > 0);
        }
        detached
    }
}

/// The last utterance of a user, for the decoder.
pub struct TailRequest<T> {
    pub user: u64,
    pub start_ts: Nanos,
    pub pcm: Vec<T>,
}

/// What a `TailRequest` holds.
pub ghost struct TailView<T> {
    pub user: u64,
    pub start_ts: Nanos,
    pub pcm: Seq<T>,
}

impl<T> View for TailRequest<T> {
    type V = TailView<T>;

    open spec fn view(&self) -> TailView<T> {
        TailView { user: self.user, start_ts: self.start_ts, pcm: self.pcm@ }
    }
}

/// The utterances for the decoder.
pub open spec fn tail_views<T>(tails: Seq<TailRequest<T>>) -> Seq<TailView<T>> {
    tails.map_values(|tail: TailRequest<T>| tail@)
}

/// The user's utterance, without the silence at its end.
pub open spec fn tail_of<T>(detached: DetachedAudioBuffer<T>, now: Nanos) -> TailView<T> {
    TailView {
        user: detached.user_id,
        start_ts: match detached.buffer.utterance_start {
            Some(start) => start,
            None => now,
        },
        pcm: pipeline::trimmed_tail(detached.buffer.pcm@, detached.buffer.silent_ticks),
    }
}

/// The utterances that pass the dispatch gate, when `answers` says which lie under the noise floor.
pub open spec fn gated_tails<T>(
    detached: Seq<DetachedAudioBuffer<T>>,
    answers: Seq<bool>,
    now: Nanos,
) -> Seq<TailView<T>>
    decreases detached.len(),
{
    if detached.len() == 0 {
        Seq::empty()
    } else {
        let earlier = gated_tails(detached.drop_last(), answers, now);
        let last = detached.last();
        if last.buffer.voiced_ticks >= pipeline::DISPATCH_GATE_MIN_VOICED_TICKS
            && !answers[detached.len() - 1] {
            earlier.push(tail_of(last, now))
        } else {
            earlier
        }
    }
}

/// `answers` are answers of `below_floor` for the utterances.
pub open spec fn tail_answers<T, G: Fn(u64, &[T]) -> bool>(
    below_floor: G,
    detached: Seq<DetachedAudioBuffer<T>>,
    now: Nanos,
    answers: Seq<bool>,
) -> bool {
    answers.len() == detached.len() && forall|i: int|
        0 <= i < answers.len() ==> #[trigger] floor_answer(
            below_floor,
            detached[i].user_id,
            tail_of(detached[i], now).pcm,
            answers[i],
        )
}

/// Cuts the silence off what was left of each user's audio, and keeps what passes the dispatch
/// gate.
pub fn tail_requests<T, G: Copy + Fn(u64, &[T]) -> bool>(
    detached: Vec<DetachedAudioBuffer<T>>,
    now: Nanos,
    below_floor: G,
) -> (r: Vec<TailRequest<T>>)
    requires
        forall|user: u64, w: &[T]| #[trigger] call_requires(below_floor, (user, w)),
    ensures
        exists|answers: Seq<bool>| #[trigger]
            tail_answers(below_floor, detached@, now, answers) && tail_views(r@) == gated_tails(
                detached@,
                answers,
                now,
            ),
{
    let ghost all = detached@;
    let ghost mut answers: Seq<bool> = Seq::empty();
    let mut out: Vec<TailRequest<T>> = Vec::new();
    assert(tail_views(out@) =~= Seq::<TailView<T>>::empty());
    for item in it: detached
        invariant
            forall|user: u64, w: &[T]| #[trigger] call_requires(below_floor, (user, w)),
            it.seq() == all,
            answers.len() == it.index(),
            forall|i: int|
                0 <= i < answers.len() ==> #[trigger] floor_answer(
                    below_floor,
                    all[i].user_id,
                    tail_of(all[i], now).pcm,
                    answers[i],
                ),
            tail_views(out@) == gated_tails(all.take(it.index() as int), answers, now),
    {
        let ghost i = it.index() as int;
        let ghost before = tail_views(out@);
        let ghost wanted = tail_of(item, now);
        let user: u64 = item.user_id;
        let buffer = item.buffer;
        let mut pcm = buffer.pcm;
        trim_finalize_tail(&mut pcm, buffer.silent_ticks);
        let below: bool = below_floor(user, pcm.as_slice());
        assert(floor_answer(below_floor, user, wanted.pcm, below));
        proof {
            let longer = answers.push(below);
            assert(all.take(i + 1).drop_last() =~= all.take(i));
            lemma_gated_tails_prefix(all.take(i), answers, longer, now);
            answers = longer;
        }
        match should_dispatch_chunk((), (), below, buffer.voiced_ticks) {
            Ok(()) => {
                let start_ts: Nanos = match buffer.utterance_start {
                    Some(start) => start,
                    None => now,
                };
                out.push(TailRequest { user, start_ts, pcm });
                assert(tail_views(out@) =~= before.push(wanted));
            },
            Err(_) => {},
        }
    }
    assert(all.take(all.len() as int) =~= all);
    assert(tail_answers(below_floor, all, now, answers));
    out
}

/// What became of a user's audio at an export.
pub enum Flushed<T> {
    /// There was none.
    Nothing,
    /// It was held back by the dispatch gate.
    Gated,
    /// It goes to the decoder.
    Utterance(TailRequest<T>),
}

/// The buffer at an export: what was left over in cleaning follows its audio.
pub open spec fn with_leftover<T>(buffer: pipeline::BufferView<T>, leftover: Seq<T>) ->
    pipeline::BufferView<T> {
    pipeline::BufferView { pcm: buffer.pcm + leftover, ..buffer }
}

impl<T> CallAudio<T> {
    /// Takes the audio of a user for an export, with what was left over in cleaning it. The user
    /// keeps an empty buffer.
    pub fn flush_pending_buffer<G: Fn(u64, &[T]) -> bool>(
        &mut self,
        user: u64,
        leftover: Vec<T>,
        now: Nanos,
        below_floor: G,
    ) -> (r: Flushed<T>)
        requires
            forall|user: u64, w: &[T]| #[trigger] call_requires(below_floor, (user, w)),
        ensures
            ({
                let has_buffer = old(self)@.streams.contains_key(user);
                let buffer = with_leftover(old(self)@.streams[user], leftover@);
                let pcm = pipeline::trimmed_tail(buffer.pcm, buffer.silent_ticks);
                if !has_buffer || buffer.pcm.len() == 0 {
                    r is Nothing && final(self)@ == old(self)@
                } else {
                    &&& final(self)@ == (CallView {
                        streams: old(self)@.streams.insert(user, pipeline::empty_buffer()),
                        ..old(self)@
                    })
                    &&& exists|answer: bool| #[trigger]
                        floor_answer(below_floor, user, pcm, answer) && (if buffer.voiced_ticks
                            >= pipeline::DISPATCH_GATE_MIN_VOICED_TICKS && !answer {
                            r matches Flushed::Utterance(tail) && tail@ == (TailView {
                                user,
                                start_ts: match buffer.utterance_start {
                                    Some(start) => start,
                                    None => now,
                                },
                                pcm,
                            })
                        } else {
                            r is Gated
                        })
                }
            }),
    {
        let mut leftover = leftover;
        if !self.streams.contains_key(&user) {
            return Flushed::Nothing;
        }
        let mut buffer = self.take_buffer(user);
        let ghost before = buffer@;
        let ghost rest = leftover@;
        buffer.pcm.append(&mut leftover);
        if buffer.pcm.len() == 0 {
            assert(buffer@.pcm =~= before.pcm);
            self.put_buffer(user, buffer);
            assert(self@.streams =~= old(self)@.streams);
            return Flushed::Nothing;
        }
        let start_ts: Nanos = match buffer.utterance_start {
            Some(start) => start,
            None => now,
        };
        let voiced_ticks: u32 = buffer.voiced_ticks;
        let mut pcm = buffer.pcm;
        trim_finalize_tail(&mut pcm, buffer.silent_ticks);
        self.put_buffer(user, UserAudioBuffer::default());
        assert(self@.streams =~= old(self)@.streams.insert(user, pipeline::empty_buffer()));
        let below: bool = below_floor(user, pcm.as_slice());
        let ghost whole = with_leftover(old(self)@.streams[user], rest);
        assert(pcm@ == pipeline::trimmed_tail(whole.pcm, whole.silent_ticks));
        assert(floor_answer(
            below_floor,
            user,
            pipeline::trimmed_tail(whole.pcm, whole.silent_ticks),
            below,
        ));
        match should_dispatch_chunk((), (), below, voiced_ticks) {
            Ok(()) => Flushed::Utterance(TailRequest { user, start_ts, pcm }),
            Err(_) => Flushed::Gated,
        }
    }
}

proof fn lemma_gated_tails_prefix<T>(
    detached: Seq<DetachedAudioBuffer<T>>,
    answers: Seq<bool>,
    longer: Seq<bool>,
    now: Nanos,
)
    requires
        answers.len() >= detached.len(),
        longer.len() >= detached.len(),
        forall|i: int| 0 <= i < detached.len() ==> answers[i] == longer[i],
    ensures
        gated_tails(detached, answers, now) == gated_tails(detached, longer, now),
    decreases detached.len(),
{
    if detached.len() > 0 {
        lemma_gated_tails_prefix(detached.drop_last(), answers, longer, now);
    }
}

// ---------------------------------------------------------------------------
// Laws of a tick
// ---------------------------------------------------------------------------

/// A user's buffer after the look for silence: untouched where the user spoke, one silent tick
/// older where not.
pub open spec fn waited_buffer<T>(
    begin: TickState<T>,
    user: u64,
    params: IngestParams,
    now: Nanos,
) -> pipeline::BufferView<T> {
    if begin.speaking.contains(user) {
        begin.call.streams[user]
    } else {
        audio::silenced(begin.call.streams[user], params.silence_ticks_threshold, now).0
    }
}

proof fn lemma_silence_prefix<T, G: Fn(u64, &[T]) -> bool>(
    trace: Seq<TickState<T>>,
    begin: TickState<T>,
    order: Seq<u64>,
    params: IngestParams,
    now: Nanos,
    below_floor: G,
    n: int,
)
    requires
        names_users(order, begin.call),
        silence_traced(trace, begin, order, params, now, below_floor),
        0 <= n <= order.len(),
    ensures
        trace[n].speaking == begin.speaking,
        trace[n].call.started == begin.call.started,
        forall|user: u64| #[trigger]
            trace[n].call.streams.contains_key(user) <==> begin.call.streams.contains_key(user),
        forall|user: u64|
            begin.call.streams.contains_key(user) ==> #[trigger] trace[n].call.streams[user] == (
            if order.take(n).contains(user) {
                waited_buffer(begin, user, params, now)
            } else {
                begin.call.streams[user]
            }),
    decreases n,
{
    if n == 0 {
        assert(order.take(0) =~= Seq::<u64>::empty());
    } else {
        lemma_silence_prefix(trace, begin, order, params, now, below_floor, n - 1);
        assert(silence_step_at(trace, order, n - 1, params, now, below_floor));
        let user = order[n - 1];
        assert(order.contains(user) && begin.call.streams.contains_key(user));
        assert(!order.take(n - 1).contains(user));
        assert forall|other: u64| begin.call.streams.contains_key(other) implies
            #[trigger] trace[n].call.streams[other] == (if order.take(n).contains(other) {
            waited_buffer(begin, other, params, now)
        } else {
            begin.call.streams[other]
        }) by {
            let shorter = order.take(n - 1);
            let longer = order.take(n);
            assert(longer =~= shorter.push(user));
            if other == user {
                assert(longer[n - 1] == user);
            } else if longer.contains(other) {
                let k = choose|k: int| 0 <= k < longer.len() && longer[k] == other;
                assert(shorter[k] == other);
            } else if shorter.contains(other) {
                let k = choose|k: int| 0 <= k < shorter.len() && shorter[k] == other;
                assert(longer[k] == other);
            }
        }
    }
}

/// In every tick each user of the call is looked at once: the buffer of one who spoke stays as
/// the audio left it, and the buffer of every other has one silent tick more or is complete.
pub proof fn law_tick_waits_for_each_user<T, G: Fn(u64, &[T]) -> bool>(
    trace: Seq<TickState<T>>,
    begin: TickState<T>,
    order: Seq<u64>,
    params: IngestParams,
    now: Nanos,
    below_floor: G,
    user: u64,
)
    requires
        names_users(order, begin.call),
        silence_traced(trace, begin, order, params, now, below_floor),
        begin.call.streams.contains_key(user),
    ensures
        trace.last().call.streams.contains_key(user),
        trace.last().call.streams[user] == waited_buffer(begin, user, params, now),
{
    lemma_silence_prefix(
        trace,
        begin,
        order,
        params,
        now,
        below_floor,
        order.len() as int,
    );
    assert(order.take(order.len() as int) =~= order);
    assert(trace.last() == trace[order.len() as int]);
    assert(trace.last().call.streams[user] == trace[order.len() as int].call.streams[user]);
}

/// Audio of one user leaves the buffers of all others as they are, and the start of the
/// transcription is announced with the first speech of the call alone.
pub proof fn law_audio_stays_with_its_user<T>(
    state: TickState<T>,
    source: ProcessedSource<T>,
    params: IngestParams,
    now: Nanos,
    levels: Seq<u32>,
    below_floor: bool,
    other: u64,
)
    requires
        other != source.user,
    ensures
        ({
            let next = source_after(state, source, params, now, levels, below_floor);
            &&& next.call.streams.contains_key(other) <==> state.call.streams.contains_key(other)
            &&& next.call.streams[other] == state.call.streams[other]
            &&& state.call.started ==> next.call.started && next.announce == state.announce
            &&& next.announce && !state.announce ==> next.call.started && !state.call.started
        }),
{
}

proof fn lemma_started_by_audio<T, F: Fn(&[T]) -> u32, G: Fn(u64, &[T]) -> bool>(
    trace: Seq<TickState<T>>,
    call: CallView<T>,
    sources: Seq<ProcessedSource<T>>,
    params: IngestParams,
    now: Nanos,
    loudness: F,
    below_floor: G,
    n: int,
)
    requires
        sources_traced(trace, call, sources, params, now, loudness, below_floor),
        0 <= n <= sources.len(),
    ensures
        call.started ==> trace[n].call.started,
        trace[n].announce <==> trace[n].call.started && !call.started,
    decreases n,
{
    if n > 0 {
        lemma_started_by_audio(
            trace,
            call,
            sources,
            params,
            now,
            loudness,
            below_floor,
            n - 1,
        );
        assert(source_step_at(trace, sources, n - 1, params, now, loudness, below_floor));
    }
}

proof fn lemma_silence_starts_nothing<T, G: Fn(u64, &[T]) -> bool>(
    trace: Seq<TickState<T>>,
    begin: TickState<T>,
    order: Seq<u64>,
    params: IngestParams,
    now: Nanos,
    below_floor: G,
    n: int,
)
    requires
        silence_traced(trace, begin, order, params, now, below_floor),
        0 <= n <= order.len(),
    ensures
        trace[n].call.started == begin.call.started,
        trace[n].announce == begin.announce,
    decreases n,
{
    if n > 0 {
        lemma_silence_starts_nothing(trace, begin, order, params, now, below_floor, n - 1);
        assert(silence_step_at(trace, order, n - 1, params, now, below_floor));
    }
}

/// A tick announces the start of the transcription exactly where the call had not started before
/// it and has after it, and no tick takes a start back.
pub proof fn law_tick_announces_the_start<T, F: Fn(&[T]) -> u32, G: Fn(u64, &[T]) -> bool>(
    call: CallView<T>,
    sources: Seq<ProcessedSource<T>>,
    end: TickState<T>,
    params: IngestParams,
    now: Nanos,
    loudness: F,
    below_floor: G,
)
    requires
        tick_leads(call, sources, end, params, now, loudness, below_floor),
    ensures
        call.started ==> end.call.started,
        end.announce <==> end.call.started && !call.started,
{
    let (taken, order, waited) = choose|
        taken: Seq<TickState<T>>,
        order: Seq<u64>,
        waited: Seq<TickState<T>>,
    |
        {
            &&& #[trigger] sources_traced(
                taken,
                call,
                sources,
                params,
                now,
                loudness,
                below_floor,
            )
            &&& names_users(order, taken.last().call)
            &&& #[trigger] silence_traced(waited, taken.last(), order, params, now, below_floor)
            &&& waited.last() == end
        };
    lemma_started_by_audio(
        taken,
        call,
        sources,
        params,
        now,
        loudness,
        below_floor,
        sources.len() as int,
    );
    lemma_silence_starts_nothing(
        waited,
        taken.last(),
        order,
        params,
        now,
        below_floor,
        order.len() as int,
    );
}

/// One tick of a call: what came in, and what the tick led to.
pub ghost struct TickRecord<T, F, G> {
    pub sources: Seq<ProcessedSource<T>>,
    pub params: IngestParams,
    pub now: Nanos,
    pub loudness: F,
    pub below_floor: G,
    pub end: TickState<T>,
}

/// Tick number `i` leads on from where the one before it ended. In between audio may be handed
/// out, but the call is the same.
pub open spec fn tick_follows<T, F: Fn(&[T]) -> u32, G: Fn(u64, &[T]) -> bool>(
    begins: Seq<CallView<T>>,
    ticks: Seq<TickRecord<T, F, G>>,
    i: int,
) -> bool {
    let tick = ticks[i];
    &&& tick_leads(
        begins[i],
        tick.sources,
        tick.end,
        tick.params,
        tick.now,
        tick.loudness,
        tick.below_floor,
    )
    &&& i + 1 < begins.len() ==> begins[i + 1].started == tick.end.call.started
}

proof fn lemma_started_stays<T, F: Fn(&[T]) -> u32, G: Fn(u64, &[T]) -> bool>(
    begins: Seq<CallView<T>>,
    ticks: Seq<TickRecord<T, F, G>>,
    i: int,
    j: int,
)
    requires
        begins.len() == ticks.len(),
        forall|k: int| 0 <= k < ticks.len() ==> #[trigger] tick_follows(begins, ticks, k),
        0 <= i <= j < ticks.len(),
        begins[i].started,
    ensures
        begins[j].started,
    decreases j - i,
{
    if i < j {
        let tick = ticks[i];
        assert(tick_follows(begins, ticks, i));
        law_tick_announces_the_start(
            begins[i],
            tick.sources,
            tick.end,
            tick.params,
            tick.now,
            tick.loudness,
            tick.below_floor,
        );
        lemma_started_stays(begins, ticks, i + 1, j);
    }
}

/// Over all ticks of a call, the start of the transcription is announced once at most.
pub proof fn law_start_is_announced_once<T, F: Fn(&[T]) -> u32, G: Fn(u64, &[T]) -> bool>(
    begins: Seq<CallView<T>>,
    ticks: Seq<TickRecord<T, F, G>>,
    i: int,
    j: int,
)
    requires
        begins.len() == ticks.len(),
        forall|k: int| 0 <= k < ticks.len() ==> #[trigger] tick_follows(begins, ticks, k),
        0 <= i < j < ticks.len(),
        ticks[i].end.announce,
    ensures
        !ticks[j].end.announce,
{
    let (first, later) = (ticks[i], ticks[j]);
    assert(tick_follows(begins, ticks, i));
    assert(tick_follows(begins, ticks, j));
    law_tick_announces_the_start(
        begins[i],
        first.sources,
        first.end,
        first.params,
        first.now,
        first.loudness,
        first.below_floor,
    );
    lemma_started_stays(begins, ticks, i + 1, j);
    law_tick_announces_the_start(
        begins[j],
        later.sources,
        later.end,
        later.params,
        later.now,
        later.loudness,
        later.below_floor,
    );
}

/// One source more is routed by what it brought: nothing decoded counts as a failure where there
/// was a packet; audio of a known user goes to that user, behind all that was held of the stream;
/// audio of an unknown one is held and goes to nobody.
pub proof fn law_sources_are_routed_one_by_one(
    unknown: Seq<unknown::UnknownAudio>,
    guild: u64,
    users: Map<(u64, u32), u64>,
    sources: Seq<SourceView>,
    source: SourceView,
    now: Nanos,
    held: int,
)
    requires
        unknown::streams_bounded(route_all(unknown, guild, users, sources, now).unknown),
    ensures
        ({
            let before = route_all(unknown, guild, users, sources, now);
            let after = route_all(unknown, guild, users, sources.push(source), now);
            let known = users.contains_key((guild, source.ssrc));
            &&& source.decoded is None ==> {
                &&& after.unknown == before.unknown
                &&& after.routed == before.routed
                &&& after.decode_failures == before.decode_failures + (if source.has_packet {
                    1int
                } else {
                    0
                })
                &&& after.unmapped == before.unmapped
                &&& after.decoded == before.decoded
            }
            &&& source.decoded is Some ==> after.decode_failures == before.decode_failures
            &&& source.decoded is Some && !known ==> {
                &&& after.routed == before.routed
                &&& after.unmapped == before.unmapped + 1
                &&& after.decoded == before.decoded
            }
            &&& source.decoded is Some && known ==> {
                &&& after.unmapped == before.unmapped
                &&& after.decoded == before.decoded + 1
                &&& after.routed.len() == before.routed.len() + 1
                &&& after.routed.drop_last() == before.routed
                &&& after.routed.last().user == users[(guild, source.ssrc)]
                &&& after.routed.last().ssrc == source.ssrc
                &&& 0 <= held < before.unknown.len() && before.unknown[held].guild == guild
                    && before.unknown[held].ssrc == source.ssrc ==> after.routed.last().pcm
                    == before.unknown[held].samples + source.decoded.unwrap() && after.unknown
                    == before.unknown.remove(held)
                &&& (forall|k: int|
                    0 <= k < before.unknown.len() ==> (#[trigger] before.unknown[k]).guild != guild
                        || before.unknown[k].ssrc != source.ssrc) ==> after.routed.last().pcm
                    == source.decoded.unwrap() && after.unknown == before.unknown
            }
        }),
        route_all(unknown, guild, users, Seq::empty(), now) == (RouteState {
            unknown,
            routed: Seq::empty(),
            decode_failures: 0,
            unmapped: 0,
            decoded: 0,
        }),
{
    let before = route_all(unknown, guild, users, sources, now);
    let longer = sources.push(source);
    assert(longer.drop_last() =~= sources);
    assert(longer.last() == source);
    unknown::law_unknown_audio_is_taken_once(before.unknown, guild, source.ssrc, held);
    if source.decoded is Some && users.contains_key((guild, source.ssrc)) {
        let (replay, rest) = unknown::stream_taken(before.unknown, guild, source.ssrc);
        let after = route_all(unknown, guild, users, longer, now);
        assert(after.routed.drop_last() =~= before.routed);
        if replay.len() == 0 {
            assert(replay + source.decoded.unwrap() =~= source.decoded.unwrap());
        }
    }
}

/// The source brought audio of the user, all of which ends the routed audio.
pub open spec fn is_source_of(
    source: SourceView,
    guild: u64,
    users: Map<(u64, u32), u64>,
    routed: RoutedView,
) -> bool {
    &&& source.decoded is Some
    &&& routed.ssrc == source.ssrc
    &&& users.contains_key((guild, source.ssrc))
    &&& routed.user == users[(guild, source.ssrc)]
    &&& source.decoded.unwrap().is_suffix_of(routed.pcm)
}

/// The audio of the source is among what was routed.
pub open spec fn is_routed(
    source: SourceView,
    guild: u64,
    users: Map<(u64, u32), u64>,
    routed: Seq<RoutedView>,
) -> bool {
    exists|k: int|
        0 <= k < routed.len() && is_source_of(source, guild, users, #[trigger] routed[k])
}

/// One of the sources brought the routed audio.
pub open spec fn has_source(
    sources: Seq<SourceView>,
    guild: u64,
    users: Map<(u64, u32), u64>,
    routed: RoutedView,
) -> bool {
    exists|i: int|
        0 <= i < sources.len() && is_source_of(#[trigger] sources[i], guild, users, routed)
}

/// Every source of a tick is accounted for, once: its audio is routed to its user where that is
/// known, held where not, and a packet that gave no audio is a failure.
pub proof fn law_every_source_is_accounted_for(
    unknown: Seq<unknown::UnknownAudio>,
    guild: u64,
    users: Map<(u64, u32), u64>,
    sources: Seq<SourceView>,
    now: Nanos,
)
    ensures
        ({
            let state = route_all(unknown, guild, users, sources, now);
            let brought = sources.filter(
                |source: SourceView| source.has_packet || source.decoded is Some,
            );
            &&& state.routed.len() == state.decoded
            &&& state.decoded + state.unmapped + state.decode_failures == brought.len()
        }),
    decreases sources.len(),
{
    reveal(Seq::filter);
    if sources.len() > 0 {
        law_every_source_is_accounted_for(unknown, guild, users, sources.drop_last(), now);
    }
}

/// Audio of a known user reaches that user, and nobody gets audio of another's source.
pub proof fn law_audio_reaches_its_user(
    unknown: Seq<unknown::UnknownAudio>,
    guild: u64,
    users: Map<(u64, u32), u64>,
    sources: Seq<SourceView>,
    now: Nanos,
)
    ensures
        forall|i: int|
            0 <= i < sources.len() && (#[trigger] sources[i]).decoded is Some && users.contains_key(
                (guild, sources[i].ssrc),
            ) ==> is_routed(
                sources[i],
                guild,
                users,
                route_all(unknown, guild, users, sources, now).routed,
            ),
        forall|k: int|
            0 <= k < route_all(unknown, guild, users, sources, now).routed.len() ==> has_source(
                sources,
                guild,
                users,
                #[trigger] route_all(unknown, guild, users, sources, now).routed[k],
            ),
    decreases sources.len(),
{
    if sources.len() > 0 {
        let rest = sources.drop_last();
        let source = sources.last();
        law_audio_reaches_its_user(unknown, guild, users, rest, now);
        let before = route_all(unknown, guild, users, rest, now).routed;
        let routed = route_all(unknown, guild, users, sources, now).routed;
        let replay = unknown::stream_taken(
            route_all(unknown, guild, users, rest, now).unknown,
            guild,
            source.ssrc,
        ).0;
        if source.decoded is Some && users.contains_key((guild, source.ssrc)) {
            let pcm = replay + source.decoded.unwrap();
            assert(source.decoded.unwrap() =~= pcm.subrange(
                pcm.len() - source.decoded.unwrap().len(),
                pcm.len() as int,
            ));
            assert(is_source_of(source, guild, users, routed[before.len() as int]));
        }
        assert(forall|k: int| 0 <= k < before.len() ==> #[trigger] routed[k] == before[k]);
        assert forall|i: int|
            0 <= i < sources.len() && (#[trigger] sources[i]).decoded is Some && users.contains_key(
                (guild, sources[i].ssrc),
            ) implies is_routed(sources[i], guild, users, routed) by {
            if i < rest.len() {
                assert(is_routed(rest[i], guild, users, before));
                let k = choose|k: int|
                    0 <= k < before.len() && is_source_of(
                        rest[i],
                        guild,
                        users,
                        #[trigger] before[k],
                    );
                assert(is_source_of(sources[i], guild, users, routed[k]));
            }
        }
        assert forall|k: int| 0 <= k < routed.len() implies has_source(
            sources,
            guild,
            users,
            #[trigger] routed[k],
        ) by {
            if k < before.len() {
                assert(has_source(rest, guild, users, before[k]));
                let i = choose|i: int|
                    0 <= i < rest.len() && is_source_of(
                        #[trigger] rest[i],
                        guild,
                        users,
                        before[k],
                    );
                assert(is_source_of(sources[i], guild, users, routed[k]));
            } else {
                assert(is_source_of(sources[rest.len() as int], guild, users, routed[k]));
            }
        }
    }
}

/// A chunk of a user changes that user's buffer as a chunk does, counts the user among those who
/// speak where it holds speech, and is asked to be decoded where it completes an utterance with at
/// least eight voiced ticks that is not too quiet; a completed utterance of fewer is only counted.
/// The first speech of a call starts it, and is announced.
pub proof fn law_chunk_is_taken_in<T>(
    state: TickState<T>,
    source: ProcessedSource<T>,
    params: IngestParams,
    now: Nanos,
    levels: Seq<u32>,
    below_floor: bool,
)
    requires
        state.gated < usize::MAX,
        state.resample_errors + source.resample_errors <= usize::MAX,
    ensures
        ({
            let speech = source.chunk.speech_active;
            let samples = source.chunk.pcm_16k@;
            let buffer = if state.call.streams.contains_key(source.user) {
                state.call.streams[source.user]
            } else {
                pipeline::BufferView {
                    pcm: Seq::empty(),
                    silent_ticks: 0,
                    voiced_ticks: 0,
                    utterance_start: None,
                }
            };
            let (after, outcome) = audio::ingested(buffer, samples, speech, params, now, levels);
            let next = source_after(state, source, params, now, levels, below_floor);
            let starts = speech && samples.len() > 0;
            &&& next.call.streams.contains_key(source.user)
            &&& next.call.streams[source.user] == after
            &&& next.call.started <==> state.call.started || starts
            &&& next.announce <==> state.announce || (starts && !state.call.started)
            &&& next.resample_errors == state.resample_errors + source.resample_errors
            &&& next.speaking == (if speech {
                state.speaking.push(source.user)
            } else {
                state.speaking
            })
            &&& outcome matches audio::OutcomeView::Rollover { start_ts, pcm, voiced_ticks } ==> {
                let asked = voiced_ticks >= 8 && !below_floor;
                &&& asked ==> next.requests == state.requests.push(
                    RequestView {
                        user: source.user,
                        start_ts,
                        stage: Stage::Rollover,
                        pcm,
                    },
                ) && next.gated == state.gated
                &&& !asked ==> next.requests == state.requests && next.gated == state.gated + 1
            }
            &&& !(outcome is Rollover) ==> next.requests == state.requests && next.gated
                == state.gated
        }),
{
}

/// A user who did not speak in a tick grows one silent tick older, and where that completes the
/// utterance it is asked to be decoded, without the silence at its end, if it has at least eight
/// voiced ticks and is not too quiet. One who spoke is left alone, and so is everybody else.
pub proof fn law_silence_completes_utterances<T>(
    state: TickState<T>,
    user: u64,
    params: IngestParams,
    now: Nanos,
    below_floor: bool,
    other: u64,
)
    requires
        state.gated < usize::MAX,
        state.call.streams.contains_key(user),
    ensures
        ({
            let (after, outcome) = audio::silenced(
                state.call.streams[user],
                params.silence_ticks_threshold,
                now,
            );
            let next = silence_after(state, user, params, now, below_floor);
            &&& state.speaking.contains(user) ==> next == state
            &&& next.speaking == state.speaking
            &&& next.announce == state.announce
            &&& next.call.started == state.call.started
            &&& next.resample_errors == state.resample_errors
            &&& next.call.streams.contains_key(other) <==> state.call.streams.contains_key(other)
            &&& other != user && state.call.streams.contains_key(other)
                ==> next.call.streams[other] == state.call.streams[other]
            &&& !state.speaking.contains(user) ==> next.call.streams[user] == after
            &&& !state.speaking.contains(user) ==> match outcome {
                audio::OutcomeView::Endpoint { start_ts, pcm, voiced_ticks, silent_ticks } => {
                    let asked = voiced_ticks >= 8 && !below_floor;
                    &&& asked ==> {
                        &&& next.requests.len() == state.requests.len() + 1
                        &&& next.requests.drop_last() == state.requests
                        &&& next.requests.last().user == user
                        &&& next.requests.last().start_ts == start_ts
                        &&& next.requests.last().stage == Stage::Silence
                        &&& next.requests.last().pcm == pipeline::trimmed_tail(pcm, silent_ticks)
                        &&& next.gated == state.gated
                    }
                    &&& !asked ==> next.requests == state.requests && next.gated == state.gated + 1
                },
                _ => next.requests == state.requests && next.gated == state.gated,
            }
        }),
{
    let next = silence_after(state, user, params, now, below_floor);
    assert(next.requests.len() > state.requests.len() ==> next.requests.drop_last()
        =~= state.requests);
}

/// Of what is left when a connection ends, every utterance of at least eight voiced ticks that is
/// not too quiet is asked to be decoded: for its user, from its start on, without the silence at its
/// end. Nothing else is.
pub proof fn law_tails_are_decoded<T>(
    detached: Seq<DetachedAudioBuffer<T>>,
    answers: Seq<bool>,
    now: Nanos,
)
    ensures
        gated_tails(detached, answers, now).len() <= detached.len(),
        forall|i: int|
            0 <= i < detached.len() && (#[trigger] detached[i]).buffer.voiced_ticks >= 8
                && !answers[i] ==> exists|k: int|
                0 <= k < gated_tails(detached, answers, now).len() && is_tail_of(
                    #[trigger] gated_tails(detached, answers, now)[k],
                    detached[i],
                    now,
                ),
        forall|k: int|
            0 <= k < gated_tails(detached, answers, now).len() ==> exists|i: int|
                0 <= i < detached.len() && detached[i].buffer.voiced_ticks >= 8 && !answers[i]
                    && is_tail_of(
                    #[trigger] gated_tails(detached, answers, now)[k],
                    #[trigger] detached[i],
                    now,
                ),
    decreases detached.len(),
{
    if detached.len() > 0 {
        let rest = detached.drop_last();
        law_tails_are_decoded(rest, answers, now);
        let before = gated_tails(rest, answers, now);
        let tails = gated_tails(detached, answers, now);
        let last = detached.len() - 1;
        assert forall|i: int|
            0 <= i < detached.len() && (#[trigger] detached[i]).buffer.voiced_ticks >= 8
                && !answers[i] implies exists|k: int|
            0 <= k < tails.len() && is_tail_of(#[trigger] tails[k], detached[i], now) by {
            if i < last {
                assert(rest[i] == detached[i]);
                let k = choose|k: int|
                    0 <= k < before.len() && is_tail_of(#[trigger] before[k], rest[i], now);
                assert(tails[k] == before[k]);
            } else {
                assert(is_tail_of(tails[before.len() as int], detached[i], now));
            }
        }
        assert forall|k: int| 0 <= k < tails.len() implies exists|i: int|
            0 <= i < detached.len() && detached[i].buffer.voiced_ticks >= 8 && !answers[i]
                && is_tail_of(#[trigger] tails[k], #[trigger] detached[i], now) by {
            if k < before.len() {
                assert(tails[k] == before[k]);
                let i = choose|i: int|
                    0 <= i < rest.len() && rest[i].buffer.voiced_ticks >= 8 && !answers[i]
                        && is_tail_of(before[k], #[trigger] rest[i], now);
                assert(rest[i] == detached[i]);
            } else {
                assert(is_tail_of(tails[k], detached[last], now));
            }
        }
    }
}

/// The request asks for the utterance that a buffer was left with.
pub open spec fn is_tail_of<T>(
    tail: TailView<T>,
    detached: DetachedAudioBuffer<T>,
    now: Nanos,
) -> bool {
    &&& tail.user == detached.user_id
    &&& tail.pcm == pipeline::trimmed_tail(detached.buffer.pcm@, detached.buffer.silent_ticks)
    &&& detached.buffer.utterance_start matches Some(start) ==> tail.start_ts == start
    &&& detached.buffer.utterance_start is None ==> tail.start_ts == now
}

/// What was left over of a user's audio goes behind the buffer's, and nothing else of it changes.
pub proof fn law_leftover_goes_behind<T>(buffer: pipeline::BufferView<T>, leftover: Seq<T>)
    ensures
        ({
            let after = with_leftover(buffer, leftover);
            &&& after.pcm.len() == buffer.pcm.len() + leftover.len()
            &&& buffer.pcm.is_prefix_of(after.pcm)
            &&& leftover.is_suffix_of(after.pcm)
            &&& after.silent_ticks == buffer.silent_ticks
            &&& after.voiced_ticks == buffer.voiced_ticks
            &&& after.utterance_start == buffer.utterance_start
        }),
{
}

/// What is left when a connection ends is handed out whole: of every user with audio the buffer,
/// once, and of nobody else.
pub proof fn law_left_audio_is_handed_out<T>(
    list: Seq<DetachedAudioBuffer<T>>,
    streams: Map<u64, pipeline::BufferView<T>>,
    user: u64,
    i: int,
    j: int,
)
    requires
        lists_buffers(list, streams),
    ensures
        (exists|k: int| 0 <= k < list.len() && (#[trigger] list[k]).user_id == user)
            <==> streams.contains_key(user) && streams[user].pcm.len() > 0,
        0 <= i < list.len() ==> {
            let left = list[i].buffer;
            let held = streams[list[i].user_id];
            &&& left.pcm@ == held.pcm
            &&& left.silent_ticks == held.silent_ticks
            &&& left.voiced_ticks == held.voiced_ticks
            &&& left.utterance_start == held.utterance_start
        },
        0 <= i < j < list.len() ==> list[i].user_id != list[j].user_id,
{
    if streams.contains_key(user) && streams[user].pcm.len() > 0 {
        assert(streams.contains_key(user));
    }
}

/// The sources and the routed audio are told as they are, each in its place.
pub proof fn law_sources_are_told_as_they_are<T>(
    sources: Seq<TickSource>,
    routed: Seq<RoutedAudio>,
    requests: Seq<DecodeRequest<T>>,
    tails: Seq<TailRequest<T>>,
    i: int,
)
    ensures
        source_views(sources).len() == sources.len(),
        routed_views(routed).len() == routed.len(),
        request_views(requests).len() == requests.len(),
        tail_views(tails).len() == tails.len(),
        0 <= i < sources.len() ==> {
            let told = source_views(sources)[i];
            &&& told.ssrc == sources[i].ssrc
            &&& told.has_packet == sources[i].has_packet
            &&& told.decoded is Some <==> sources[i].decoded is Some
            &&& told.decoded is Some ==> told.decoded.unwrap() == sources[i].decoded.unwrap()@
        },
        0 <= i < routed.len() ==> {
            let told = routed_views(routed)[i];
            &&& told.user == routed[i].user
            &&& told.ssrc == routed[i].ssrc
            &&& told.pcm == routed[i].pcm@
        },
        0 <= i < requests.len() ==> {
            let told = request_views(requests)[i];
            &&& told.user == requests[i].user
            &&& told.start_ts == requests[i].start_ts
            &&& told.stage == requests[i].stage
            &&& told.pcm == requests[i].pcm@
        },
        0 <= i < tails.len() ==> {
            let told = tail_views(tails)[i];
            &&& told.user == tails[i].user
            &&& told.start_ts == tails[i].start_ts
            &&& told.pcm == tails[i].pcm@
        },
        Stage::Rollover.label() == "rollover"@,
        Stage::Silence.label() == "silence"@,
{
}

proof fn lemma_others_are_left<T, F: Fn(&[T]) -> u32, G: Fn(u64, &[T]) -> bool>(
    trace: Seq<TickState<T>>,
    call: CallView<T>,
    sources: Seq<ProcessedSource<T>>,
    params: IngestParams,
    now: Nanos,
    loudness: F,
    below_floor: G,
    user: u64,
    from: int,
    to: int,
)
    requires
        sources_traced(trace, call, sources, params, now, loudness, below_floor),
        0 <= from <= to <= sources.len(),
        forall|i: int| from <= i < to ==> (#[trigger] sources[i]).user != user,
    ensures
        trace[to].call.streams.contains_key(user) <==> trace[from].call.streams.contains_key(user),
        trace[to].call.streams[user] == trace[from].call.streams[user],
        trace[to].speaking.contains(user) <==> trace[from].speaking.contains(user),
    decreases to - from,
{
    if from < to {
        lemma_others_are_left(
            trace,
            call,
            sources,
            params,
            now,
            loudness,
            below_floor,
            user,
            from,
            to - 1,
        );
        assert(source_step_at(trace, sources, to - 1, params, now, loudness, below_floor));
        let state = trace[to - 1];
        let source = sources[to - 1];
        let next = trace[to];
        assert(source_step(state, source, next, params, now, loudness, below_floor));
        let (levels, answer) = choose|levels: Seq<u32>, answer: bool| #[trigger]
            source_decided(
                state,
                source,
                next,
                params,
                now,
                loudness,
                below_floor,
                levels,
                answer,
            );
        law_audio_stays_with_its_user(state, source, params, now, levels, answer, user);
        lemma_speaking_grows(state, source, params, now, levels, answer, user);
    }
}

proof fn lemma_speaking_grows<T>(
    state: TickState<T>,
    source: ProcessedSource<T>,
    params: IngestParams,
    now: Nanos,
    levels: Seq<u32>,
    below_floor: bool,
    user: u64,
)
    ensures
        source_after(state, source, params, now, levels, below_floor).speaking.contains(user)
            <==> state.speaking.contains(user) || (source.user == user
            && source.chunk.speech_active),
{
    let next = source_after(state, source, params, now, levels, below_floor);
    let n = state.speaking.len() as int;
    if source.chunk.speech_active {
        assert(next.speaking == state.speaking.push(source.user));
        assert(next.speaking[n] == source.user);
        if state.speaking.contains(user) {
            let k = choose|k: int| 0 <= k < n && state.speaking[k] == user;
            assert(next.speaking[k] == user);
        }
        if next.speaking.contains(user) && source.user != user {
            let k = choose|k: int| 0 <= k < next.speaking.len() && next.speaking[k] == user;
            assert(k < n);
            assert(state.speaking[k] == user);
        }
    } else {
        assert(next.speaking == state.speaking);
    }
}

/// In a tick, somebody of whom no audio came grows one silent tick older.
pub proof fn law_silent_users_wait_one_tick<T, F: Fn(&[T]) -> u32, G: Fn(u64, &[T]) -> bool>(
    call: CallView<T>,
    sources: Seq<ProcessedSource<T>>,
    end: TickState<T>,
    params: IngestParams,
    now: Nanos,
    loudness: F,
    below_floor: G,
    user: u64,
)
    requires
        tick_leads(call, sources, end, params, now, loudness, below_floor),
        forall|i: int| 0 <= i < sources.len() ==> (#[trigger] sources[i]).user != user,
        call.streams.contains_key(user),
    ensures
        end.call.streams.contains_key(user),
        end.call.streams[user] == audio::silenced(
            call.streams[user],
            params.silence_ticks_threshold,
            now,
        ).0,
{
    let (taken, order, waited) = choose|
        taken: Seq<TickState<T>>,
        order: Seq<u64>,
        waited: Seq<TickState<T>>,
    |
        {
            &&& #[trigger] sources_traced(taken, call, sources, params, now, loudness, below_floor)
            &&& names_users(order, taken.last().call)
            &&& #[trigger] silence_traced(waited, taken.last(), order, params, now, below_floor)
            &&& waited.last() == end
        };
    lemma_others_are_left(
        taken,
        call,
        sources,
        params,
        now,
        loudness,
        below_floor,
        user,
        0,
        sources.len() as int,
    );
    assert(!taken[0].speaking.contains(user));
    law_tick_waits_for_each_user(waited, taken.last(), order, params, now, below_floor, user);
}

/// In a tick, somebody who brings one chunk has it taken in; and where it holds no speech, grows one
/// silent tick older after that.
pub proof fn law_speaking_users_are_taken_in<T, F: Fn(&[T]) -> u32, G: Fn(u64, &[T]) -> bool>(
    call: CallView<T>,
    sources: Seq<ProcessedSource<T>>,
    end: TickState<T>,
    params: IngestParams,
    now: Nanos,
    loudness: F,
    below_floor: G,
    at: int,
)
    requires
        tick_leads(call, sources, end, params, now, loudness, below_floor),
        0 <= at < sources.len(),
        forall|i: int|
            0 <= i < sources.len() && i != at ==> (#[trigger] sources[i]).user != sources[at].user,
        call.streams.contains_key(sources[at].user),
    ensures
        end.call.streams.contains_key(sources[at].user),
        exists|levels: Seq<u32>| #[trigger]
            is_taken_in(
                call.streams[sources[at].user],
                sources[at].chunk,
                params,
                now,
                loudness,
                levels,
                end.call.streams[sources[at].user],
            ),
{
    let user = sources[at].user;
    let (taken, order, waited) = choose|
        taken: Seq<TickState<T>>,
        order: Seq<u64>,
        waited: Seq<TickState<T>>,
    |
        {
            &&& #[trigger] sources_traced(taken, call, sources, params, now, loudness, below_floor)
            &&& names_users(order, taken.last().call)
            &&& #[trigger] silence_traced(waited, taken.last(), order, params, now, below_floor)
            &&& waited.last() == end
        };
    lemma_others_are_left(
        taken,
        call,
        sources,
        params,
        now,
        loudness,
        below_floor,
        user,
        0,
        at,
    );
    lemma_others_are_left(
        taken,
        call,
        sources,
        params,
        now,
        loudness,
        below_floor,
        user,
        at + 1,
        sources.len() as int,
    );
    assert(!taken[0].speaking.contains(user));
    assert(source_step_at(taken, sources, at, params, now, loudness, below_floor));
    let state = taken[at];
    let next = taken[at + 1];
    assert(source_step(state, sources[at], next, params, now, loudness, below_floor));
    let (levels, answer) = choose|levels: Seq<u32>, answer: bool| #[trigger]
        source_decided(
            state,
            sources[at],
            next,
            params,
            now,
            loudness,
            below_floor,
            levels,
            answer,
        );
    lemma_speaking_grows(state, sources[at], params, now, levels, answer, user);
    let chunk = sources[at].chunk;
    let after = audio::ingested(
        call.streams[user],
        chunk.pcm_16k@,
        chunk.speech_active,
        params,
        now,
        levels,
    ).0;
    assert(next.call.streams.contains_key(user));
    assert(next.call.streams[user] == after);
    assert(next.speaking.contains(user) <==> chunk.speech_active);
    law_tick_waits_for_each_user(waited, taken.last(), order, params, now, below_floor, user);
    assert(is_taken_in(
        call.streams[user],
        chunk,
        params,
        now,
        loudness,
        levels,
        end.call.streams[user],
    ));
}

/// The buffer after a tick in which it got one chunk.
pub open spec fn is_taken_in<T, F: Fn(&[T]) -> u32>(
    before: pipeline::BufferView<T>,
    chunk: ProcessedSpeechChunk<T>,
    params: IngestParams,
    now: Nanos,
    loudness: F,
    levels: Seq<u32>,
    after: pipeline::BufferView<T>,
) -> bool {
    let taken = audio::ingested(
        before,
        chunk.pcm_16k@,
        chunk.speech_active,
        params,
        now,
        levels,
    ).0;
    &&& audio::ingest_levels(
        loudness,
        before,
        chunk.pcm_16k@,
        chunk.speech_active,
        params,
        levels,
    )
    &&& chunk.speech_active ==> after == taken
    &&& !chunk.speech_active ==> after == audio::silenced(
        taken,
        params.silence_ticks_threshold,
        now,
    ).0
}

/// Whether an utterance is too quiet is asked of the very audio that would be decoded, and of its
/// user: of what a rollover hands out, of what silence completed, without the silence, and of what
/// is left when a connection ends.
pub proof fn law_quiet_is_asked_of_the_utterance<T, F: Fn(&[T]) -> u32, G: Fn(u64, &[T]) -> bool>(
    state: TickState<T>,
    source: ProcessedSource<T>,
    next: TickState<T>,
    params: IngestParams,
    now: Nanos,
    loudness: F,
    below_floor: G,
    levels: Seq<u32>,
    answer: bool,
    user: u64,
)
    ensures
        source_decided(state, source, next, params, now, loudness, below_floor, levels, answer)
            ==> {
            let buffer = if state.call.streams.contains_key(source.user) {
                state.call.streams[source.user]
            } else {
                pipeline::BufferView {
                    pcm: Seq::empty(),
                    silent_ticks: 0,
                    voiced_ticks: 0,
                    utterance_start: None,
                }
            };
            let (after, outcome) = audio::ingested(
                buffer,
                source.chunk.pcm_16k@,
                source.chunk.speech_active,
                params,
                now,
                levels,
            );
            &&& outcome matches audio::OutcomeView::Rollover { pcm, .. } ==> exists|w: &[T]|
                w@ == pcm && #[trigger] call_ensures(below_floor, (source.user, w), answer)
            &&& next == source_after(state, source, params, now, levels, answer)
            &&& audio::ingest_levels(
                loudness,
                buffer,
                source.chunk.pcm_16k@,
                source.chunk.speech_active,
                params,
                levels,
            )
        },
        silence_decided(state, user, next, params, now, below_floor, answer) ==> {
            let (after, outcome) = audio::silenced(
                state.call.streams[user],
                params.silence_ticks_threshold,
                now,
            );
            &&& !state.speaking.contains(user) ==> (outcome matches audio::OutcomeView::Endpoint {
                pcm,
                silent_ticks,
                ..
            } ==> exists|w: &[T]|
                w@ == pipeline::trimmed_tail(pcm, silent_ticks) && #[trigger] call_ensures(
                    below_floor,
                    (user, w),
                    answer,
                ))
            &&& next == silence_after(state, user, params, now, answer)
        },
{
}

/// Of each utterance that is left when a connection ends, it is asked by itself whether it is too
/// quiet.
pub proof fn law_quiet_is_asked_of_every_tail<T, G: Fn(u64, &[T]) -> bool>(
    below_floor: G,
    detached: Seq<DetachedAudioBuffer<T>>,
    now: Nanos,
    answers: Seq<bool>,
    i: int,
)
    requires
        tail_answers(below_floor, detached, now, answers),
        0 <= i < detached.len(),
    ensures
        answers.len() == detached.len(),
        exists|w: &[T]|
            w@ == pipeline::trimmed_tail(
                detached[i].buffer.pcm@,
                detached[i].buffer.silent_ticks,
            ) && #[trigger] call_ensures(below_floor, (detached[i].user_id, w), answers[i]),
{
    assert(floor_answer(
        below_floor,
        detached[i].user_id,
        tail_of(detached[i], now).pcm,
        answers[i],
    ));
}

} // verus!
