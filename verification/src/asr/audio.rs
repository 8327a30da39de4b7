//! Cutting a speaker's audio into utterances: rollovers of long ones and endpoints in silence.
use vstd::prelude::*;
use vstd::slice::slice_subrange;

use crate::asr::pipeline;
use crate::asr::pipeline::UserAudioBuffer;
use crate::time;
use crate::time::Nanos;

verus! {

broadcast use vstd::seq::group_seq_axioms;

// ---------------------------------------------------------------------------
// Where a long utterance is split
// ---------------------------------------------------------------------------

/// The level above every level that a window can have.
pub const LOUDEST: u32 = 0x7f80_0000;

/// Samples in the window whose level decides: 50 ms at 16 kHz.
pub const SPLIT_WINDOW: usize = 800;

/// Samples between two places that are tried: 10 ms at 16 kHz.
pub const SPLIT_HOP: usize = 160;

/// The larger of the two.
pub open spec fn max_int(a: int, b: int) -> int {
    if a >= b {
        a
    } else {
        b
    }
}

/// `x` brought between `lo` and `hi`.
pub open spec fn clamp_int(x: int, lo: int, hi: int) -> int {
    if x < lo {
        lo
    } else if x > hi {
        hi
    } else {
        x
    }
}

/// `a - b`, or zero where that is negative.
pub open spec fn saturating(a: int, b: int) -> int {
    max_int(a - b, 0)
}

/// The earliest place of a split: no more than `max_keep` samples stay, and a tenth of a second
/// goes.
pub open spec fn split_lowest(len: int, max_keep: int) -> int {
    max_int(saturating(len, max_keep), 1_600)
}

/// The latest place of a split: a tenth of a second stays.
pub open spec fn split_highest(len: int) -> int {
    saturating(len, 1_600)
}

/// The place of a split that keeps `keep` samples, as far as the bounds allow.
pub open spec fn split_nominal(len: int, keep: int, max_keep: int) -> int {
    clamp_int(saturating(len, keep), split_lowest(len, max_keep), split_highest(len))
}

/// How far from the nominal place a quieter one is looked for.
pub open spec fn split_radius(keep: int) -> int {
    clamp_int(keep / 2, 800, 8_000)
}

/// The first place that is tried.
pub open spec fn split_first(len: int, keep: int, max_keep: int) -> int {
    max_int(
        saturating(split_nominal(len, keep, max_keep), split_radius(keep)),
        split_lowest(len, max_keep),
    )
}

/// No place after this one is tried.
pub open spec fn split_last(len: int, keep: int, max_keep: int) -> int {
    let far = split_nominal(len, keep, max_keep) + split_radius(keep);
    if far <= split_highest(len) {
        far
    } else {
        split_highest(len)
    }
}

/// A quieter place is looked for at all: there is room for one.
pub open spec fn split_searched(len: int, max_keep: int) -> bool {
    len >= 3_200 && split_lowest(len, max_keep) < split_highest(len)
}

/// How many places are tried.
pub open spec fn split_tries(len: int, keep: int, max_keep: int) -> nat {
    ((split_last(len, keep, max_keep) - split_first(len, keep, max_keep)) / 160 + 1) as nat
}

/// The place that is tried as number `k`.
pub open spec fn split_place(len: int, keep: int, max_keep: int, k: int) -> int {
    split_first(len, keep, max_keep) + 160 * k
}

/// The 800 samples round the place `at`, moved as far as the two ends ask.
pub open spec fn split_window<T>(pcm: Seq<T>, at: int) -> Seq<T> {
    let left = if saturating(at, 400) + 800 <= pcm.len() {
        saturating(at, 400)
    } else {
        pcm.len() - 800
    };
    pcm.subrange(left, left + 800)
}

/// `level` is a level that `loudness` gives for `window`.
pub open spec fn level_of<T, F: Fn(&[T]) -> u32>(loudness: F, window: Seq<T>, level: u32) -> bool {
    exists|w: &[T]| w@ == window && #[trigger] call_ensures(loudness, (w,), level)
}

/// `levels` are the levels of the windows round the places that are tried in `pcm`.
pub open spec fn levels_of<T, F: Fn(&[T]) -> u32>(
    loudness: F,
    pcm: Seq<T>,
    keep: int,
    max_keep: int,
    levels: Seq<u32>,
) -> bool {
    split_searched(pcm.len() as int, max_keep) ==> {
        &&& levels.len() == split_tries(pcm.len() as int, keep, max_keep)
        &&& forall|k: int|
            0 <= k < levels.len() ==> #[trigger] level_of(
                loudness,
                split_window(pcm, split_place(pcm.len() as int, keep, max_keep, k)),
                levels[k],
            )
    }
}

/// The first position of the lowest of `levels`.
pub open spec fn first_lowest(levels: Seq<u32>) -> int
    decreases levels.len(),
{
    if levels.len() <= 1 {
        0
    } else {
        let best = first_lowest(levels.drop_last());
        if levels.last() < levels[best] {
            levels.len() - 1
        } else {
            best
        }
    }
}

/// Where audio of `len` samples is split, when the places that are tried have these levels: at
/// the first of the quietest places, or at the nominal place where none has a level.
pub open spec fn split_index(len: int, keep: int, max_keep: int, levels: Seq<u32>) -> int {
    if len < 3_200 {
        saturating(len, keep)
    } else if !split_searched(len, max_keep) {
        split_highest(len)
    } else if levels[first_lowest(levels)] < LOUDEST {
        split_place(len, keep, max_keep, first_lowest(levels))
    } else {
        split_nominal(len, keep, max_keep)
    }
}

proof fn lemma_first_lowest(levels: Seq<u32>)
    requires
        levels.len() > 0,
    ensures
        0 <= first_lowest(levels) < levels.len(),
        forall|k: int| 0 <= k < levels.len() ==> levels[first_lowest(levels)] <= #[trigger] levels[k],
        forall|k: int| 0 <= k < first_lowest(levels) ==> levels[first_lowest(levels)] < #[trigger] levels[k],
    decreases levels.len(),
{
    if levels.len() > 1 {
        let shorter = levels.drop_last();
        lemma_first_lowest(shorter);
        assert forall|k: int| 0 <= k < levels.len() implies levels[first_lowest(levels)]
            <= #[trigger] levels[k] by {
            if k < shorter.len() {
                assert(shorter[k] == levels[k]);
            }
        }
        assert forall|k: int| 0 <= k < first_lowest(levels) implies levels[first_lowest(levels)]
            < #[trigger] levels[k] by {
            assert(shorter[k] == levels[k]);
        }
    }
}

/// Where `pcm` is split so that about `keep_samples` samples stay, at a quiet place nearby.
/// `loudness` gives the level of a window.
pub fn choose_rollover_split_index<T, F: Fn(&[T]) -> u32>(
    pcm: &[T],
    keep_samples: usize,
    max_keep_without_starving: usize,
    loudness: F,
) -> (r: usize)
    requires
        forall|w: &[T]| #[trigger] call_requires(loudness, (w,)),
    ensures
        exists|levels: Seq<u32>|
            #![trigger levels_of(loudness, pcm@, keep_samples as int, max_keep_without_starving as int, levels)]
            levels_of(
                loudness,
                pcm@,
                keep_samples as int,
                max_keep_without_starving as int,
                levels,
            ) && r == split_index(
                pcm@.len() as int,
                keep_samples as int,
                max_keep_without_starving as int,
                levels,
            ),
{
    let len: usize = pcm.len();
    let ghost n = pcm@.len() as int;
    let ghost keep = keep_samples as int;
    let ghost max_keep = max_keep_without_starving as int;
    if len < 3_200 {
        assert(levels_of(loudness, pcm@, keep, max_keep, Seq::empty()));
        return len.saturating_sub(keep_samples);
    }
    let tail_bound: usize = len.saturating_sub(max_keep_without_starving);
    let min_split: usize = if tail_bound >= 1_600 {
        tail_bound
    } else {
        1_600
    };
    let max_split: usize = len - 1_600;
    if min_split >= max_split {
        assert(levels_of(loudness, pcm@, keep, max_keep, Seq::empty()));
        return max_split;
    }
    let wished: usize = len.saturating_sub(keep_samples);
    let nominal: usize = if wished < min_split {
        min_split
    } else if wished > max_split {
        max_split
    } else {
        wished
    };
    let half: usize = keep_samples / 2;
    let search_radius: usize = if half < 800 {
        800
    } else if half > 8_000 {
        8_000
    } else {
        half
    };
    let near: usize = nominal.saturating_sub(search_radius);
    let search_start: usize = if near >= min_split {
        near
    } else {
        min_split
    };
    let far: usize = nominal.saturating_add(search_radius);
    let search_end: usize = if far <= max_split {
        far
    } else {
        max_split
    };
    assert(search_start == split_first(n, keep, max_keep));
    assert(search_end == split_last(n, keep, max_keep));
    assert(nominal == split_nominal(n, keep, max_keep));
    assert(search_start <= nominal <= search_end);

    let mut best: usize = nominal;
    let mut best_level: u32 = LOUDEST;
    let ghost mut levels: Seq<u32> = Seq::empty();
    let mut idx: usize = search_start;
    let mut more: bool = true;
    while more
        invariant
            forall|w: &[T]| #[trigger] call_requires(loudness, (w,)),
            n == len == pcm@.len(),
            keep == keep_samples,
            max_keep == max_keep_without_starving,
            n >= 3_200,
            split_searched(n, max_keep),
            search_start == split_first(n, keep, max_keep),
            search_end == split_last(n, keep, max_keep),
            nominal == split_nominal(n, keep, max_keep),
            1_600 <= search_start <= nominal <= search_end <= n - 1_600,
            levels.len() <= split_tries(n, keep, max_keep),
            more ==> idx == split_place(n, keep, max_keep, levels.len() as int) && idx
                <= search_end,
            !more ==> levels.len() == split_tries(n, keep, max_keep),
            forall|k: int|
                0 <= k < levels.len() ==> #[trigger] level_of(
                    loudness,
                    split_window(pcm@, split_place(n, keep, max_keep, k)),
                    levels[k],
                ),
            levels.len() == 0 ==> best_level == LOUDEST && best == nominal,
            levels.len() > 0 ==> {
                let low = levels[first_lowest(levels)];
                &&& best_level == (if low < LOUDEST {
                    low
                } else {
                    LOUDEST
                })
                &&& best == (if low < LOUDEST {
                    split_place(n, keep, max_keep, first_lowest(levels))
                } else {
                    nominal as int
                })
            },
        decreases split_tries(n, keep, max_keep) - levels.len(),
    {
        let centered: usize = idx - 400;
        let left: usize = if centered + SPLIT_WINDOW <= len {
            centered
        } else {
            len - SPLIT_WINDOW
        };
        let window = slice_subrange(pcm, left, left + SPLIT_WINDOW);
        let level: u32 = loudness(window);
        assert(window@ == split_window(pcm@, idx as int));
        assert(level_of(loudness, split_window(pcm@, idx as int), level));
        let ghost before = levels;
        proof {
            levels = levels.push(level);
            assert(levels.drop_last() =~= before);
            if before.len() > 0 {
                lemma_first_lowest(before);
            }
        }
        if level < best_level {
            best_level = level;
            best = idx;
        }
        if search_end - idx < SPLIT_HOP {
            more = false;
        } else {
            idx += SPLIT_HOP;
        }
    }
    proof {
        lemma_first_lowest(levels);
        assert(levels_of(loudness, pcm@, keep, max_keep, levels));
    }
    best
}

/// Every split of audio that is long enough leaves a tenth of a second on either side.
pub proof fn law_split_leaves_both_sides(len: int, keep: int, max_keep: int, levels: Seq<u32>)
    requires
        len >= 3_200,
        keep >= 0,
        max_keep >= 0,
        split_searched(len, max_keep) ==> levels.len() == split_tries(len, keep, max_keep),
    ensures
        1_600 <= split_index(len, keep, max_keep, levels) <= len - 1_600,
        split_searched(len, max_keep) ==> split_lowest(len, max_keep) <= split_index(
            len,
            keep,
            max_keep,
            levels,
        ) <= split_highest(len),
{
    if split_searched(len, max_keep) {
        lemma_first_lowest(levels);
    }
}

/// A split lies where no other place that was tried is quieter.
pub proof fn law_split_is_quietest(
    len: int,
    keep: int,
    max_keep: int,
    levels: Seq<u32>,
    k: int,
)
    requires
        split_searched(len, max_keep),
        levels.len() == split_tries(len, keep, max_keep),
        0 <= k < levels.len(),
        levels[k] < LOUDEST,
    ensures
        exists|best: int|
            0 <= best < levels.len() && #[trigger] levels[best] <= levels[k] && split_index(
                len,
                keep,
                max_keep,
                levels,
            ) == split_place(len, keep, max_keep, best),
{
    lemma_first_lowest(levels);
    assert(levels[first_lowest(levels)] <= levels[k]);
}

// ---------------------------------------------------------------------------
// Taking audio in
// ---------------------------------------------------------------------------

/// The limits of taking audio in.
#[derive(Clone, Copy)]
pub struct IngestParams {
    pub max_ingest_samples: usize,
    pub keep_context_samples: usize,
    pub silence_ticks_threshold: u32,
}

impl IngestParams {
    /// The limits for 16 kHz audio, out of times in milliseconds.
    pub fn from_ms(max_ms: u64, context_ms: u64, silence_ticks_threshold: u32) -> (r: Self)
        requires
            max_ms * 16 <= usize::MAX,
            context_ms * 16 <= usize::MAX,
        ensures
            r.max_ingest_samples == max_ms * 16,
            r.keep_context_samples == context_ms * 16,
            r.silence_ticks_threshold == silence_ticks_threshold,
    {
        IngestParams {
            max_ingest_samples: max_ms as usize * 16,
            keep_context_samples: context_ms as usize * 16,
            silence_ticks_threshold,
        }
    }

    /// The most samples that may stay behind at a rollover.
    pub open spec fn max_keep(self) -> int {
        saturating(self.max_ingest_samples as int, 1_600)
    }

    /// The samples that stay behind at a rollover out of `len`, nominally.
    pub open spec fn keep(self, len: int) -> int {
        let keep = if self.keep_context_samples <= self.max_keep() {
            self.keep_context_samples as int
        } else {
            self.max_keep()
        };
        if keep <= len {
            keep
        } else {
            len
        }
    }
}

/// Cleaned audio of one tick, and whether it holds speech.
pub struct ProcessedSpeechChunk<T> {
    pub pcm_16k: Vec<T>,
    pub speech_active: bool,
}

/// What became of the audio that was taken in.
pub enum IngestOutcome<T> {
    Pending,
    Rollover { start_ts: Nanos, pcm: Vec<T>, voiced_ticks: u32 },
    Endpoint { start_ts: Nanos, pcm: Vec<T>, voiced_ticks: u32, silent_ticks: u32 },
}

/// What an `IngestOutcome` holds.
pub ghost enum OutcomeView<T> {
    Pending,
    Rollover { start_ts: Nanos, pcm: Seq<T>, voiced_ticks: u32 },
    Endpoint { start_ts: Nanos, pcm: Seq<T>, voiced_ticks: u32, silent_ticks: u32 },
}

impl<T> View for IngestOutcome<T> {
    type V = OutcomeView<T>;

    open spec fn view(&self) -> OutcomeView<T> {
        match self {
            IngestOutcome::Pending => OutcomeView::Pending,
            IngestOutcome::Rollover { start_ts, pcm, voiced_ticks } => OutcomeView::Rollover {
                start_ts: *start_ts,
                pcm: pcm@,
                voiced_ticks: *voiced_ticks,
            },
            IngestOutcome::Endpoint { start_ts, pcm, voiced_ticks, silent_ticks } => {
                OutcomeView::Endpoint {
                    start_ts: *start_ts,
                    pcm: pcm@,
                    voiced_ticks: *voiced_ticks,
                    silent_ticks: *silent_ticks,
                }
            },
        }
    }
}

/// One more tick, as far as the counter reaches.
pub open spec fn next_tick(ticks: u32) -> u32 {
    if ticks == u32::MAX {
        ticks
    } else {
        (ticks + 1) as u32
    }
}

/// Whether the buffer takes a chunk in: it is not empty, and an utterance runs or begins with it.
pub open spec fn takes_in<T>(buffer: pipeline::BufferView<T>, samples: Seq<T>, speech: bool) -> bool {
    samples.len() > 0 && (buffer.utterance_start is Some || speech)
}

/// The buffer with a chunk behind its audio.
pub open spec fn extended<T>(
    buffer: pipeline::BufferView<T>,
    samples: Seq<T>,
    speech: bool,
    now: Nanos,
) -> pipeline::BufferView<T> {
    pipeline::BufferView {
        pcm: buffer.pcm + samples,
        silent_ticks: if speech {
            0
        } else {
            buffer.silent_ticks
        },
        voiced_ticks: if speech {
            next_tick(buffer.voiced_ticks)
        } else {
            buffer.voiced_ticks
        },
        utterance_start: if buffer.utterance_start is None {
            Some(now)
        } else {
            buffer.utterance_start
        },
    }
}

/// The voiced ticks that go with the first `at` of `len` samples.
pub open spec fn prorated(voiced_ticks: u32, at: int, len: int) -> u32 {
    (voiced_ticks * at / len) as u32
}

/// The buffer and the outcome of cutting `buffer` at `at`.
pub open spec fn rolled_over<T>(buffer: pipeline::BufferView<T>, at: int, now: Nanos) -> (
    pipeline::BufferView<T>,
    OutcomeView<T>,
) {
    let voiced_ticks = prorated(buffer.voiced_ticks, at, buffer.pcm.len() as int);
    let rest = buffer.pcm.skip(at);
    (
        pipeline::BufferView {
            pcm: rest,
            silent_ticks: buffer.silent_ticks,
            voiced_ticks: (buffer.voiced_ticks - voiced_ticks) as u32,
            utterance_start: Some(time::back_by_ms(now, rest.len() / 16)),
        },
        OutcomeView::Rollover {
            start_ts: match buffer.utterance_start {
                Some(start) => start,
                None => now,
            },
            pcm: buffer.pcm.take(at),
            voiced_ticks,
        },
    )
}

/// The chunk brings the buffer to its limit, so that a place for a split is looked for.
pub open spec fn split_due<T>(
    buffer: pipeline::BufferView<T>,
    samples: Seq<T>,
    speech: bool,
    params: IngestParams,
) -> bool {
    takes_in(buffer, samples, speech) && (buffer.pcm + samples).len() >= params.max_ingest_samples
}

/// The buffer and the outcome after a chunk, when the places tried for a split have these levels.
pub open spec fn ingested<T>(
    buffer: pipeline::BufferView<T>,
    samples: Seq<T>,
    speech: bool,
    params: IngestParams,
    now: Nanos,
    levels: Seq<u32>,
) -> (pipeline::BufferView<T>, OutcomeView<T>) {
    let longer = extended(buffer, samples, speech, now);
    let len = longer.pcm.len() as int;
    let at = split_index(len, params.keep(len), params.max_keep(), levels);
    if !takes_in(buffer, samples, speech) {
        (buffer, OutcomeView::Pending)
    } else if !split_due(buffer, samples, speech, params) || at < 1_600 {
        (longer, OutcomeView::Pending)
    } else {
        rolled_over(longer, at, now)
    }
}

/// `levels` are the levels that decide where the buffer is split after the chunk, where a place
/// for a split is looked for.
pub open spec fn ingest_levels<T, F: Fn(&[T]) -> u32>(
    loudness: F,
    buffer: pipeline::BufferView<T>,
    samples: Seq<T>,
    speech: bool,
    params: IngestParams,
    levels: Seq<u32>,
) -> bool {
    let pcm = buffer.pcm + samples;
    split_due(buffer, samples, speech, params) ==> levels_of(
        loudness,
        pcm,
        params.keep(pcm.len() as int),
        params.max_keep(),
        levels,
    )
}

proof fn lemma_split_index_in_range(len: int, keep: int, max_keep: int, levels: Seq<u32>)
    requires
        len >= 0,
        keep >= 0,
        max_keep >= 0,
        split_searched(len, max_keep) ==> levels.len() == split_tries(len, keep, max_keep),
    ensures
        0 <= split_index(len, keep, max_keep, levels) <= len,
{
    if len >= 3_200 {
        law_split_leaves_both_sides(len, keep, max_keep, levels);
    }
}

proof fn lemma_prorated(voiced_ticks: u32, at: int, len: int)
    requires
        0 <= at <= len,
        len > 0,
    ensures
        0 <= voiced_ticks * at,
        0 <= voiced_ticks * at / len <= voiced_ticks,
        prorated(voiced_ticks, at, len) == voiced_ticks * at / len,
{
    let v = voiced_ticks as int;
    assert(0 <= v * at <= v * len) by (nonlinear_arith)
        requires
            0 <= at <= len,
            0 <= v,
    ;
    assert(0 <= v * at / len <= v) by (nonlinear_arith)
        requires
            0 <= v * at <= v * len,
            len > 0,
            0 <= v,
    ;
}

/// Takes a chunk of cleaned audio in. A buffer that has grown to the limit is cut at a quiet
/// place: what stands before it is handed out, and what stands after it stays.
pub fn append_processed_chunk<T, F: Fn(&[T]) -> u32>(
    buffer: &mut UserAudioBuffer<T>,
    chunk: ProcessedSpeechChunk<T>,
    params: IngestParams,
    now: Nanos,
    loudness: F,
) -> (r: IngestOutcome<T>)
    requires
        forall|w: &[T]| #[trigger] call_requires(loudness, (w,)),
    ensures
        exists|levels: Seq<u32>|
            #[trigger] ingest_levels(
                loudness,
                old(buffer)@,
                chunk.pcm_16k@,
                chunk.speech_active,
                params,
                levels,
            ) && (final(buffer)@, r@) == ingested(
                old(buffer)@,
                chunk.pcm_16k@,
                chunk.speech_active,
                params,
                now,
                levels,
            ),
        final(buffer).silent_ticks == (if chunk.pcm_16k@.len() > 0 && chunk.speech_active {
            0
        } else {
            old(buffer).silent_ticks
        }),
        !(r is Endpoint),
{
    let ghost before = buffer@;
    let ghost samples = chunk.pcm_16k@;
    let ghost speech = chunk.speech_active;
    let ghost longer = extended(before, samples, speech, now);
    let mut added = chunk.pcm_16k;
    if added.len() == 0 || (buffer.utterance_start.is_none() && !chunk.speech_active) {
        assert(ingest_levels(loudness, before, samples, speech, params, Seq::empty()));
        return IngestOutcome::Pending;
    }
    if buffer.utterance_start.is_none() {
        buffer.utterance_start = Some(now);
    }
    if chunk.speech_active {
        buffer.silent_ticks = 0;
        buffer.voiced_ticks = buffer.voiced_ticks.saturating_add(1);
    }
    buffer.pcm.append(&mut added);
    assert(buffer@ == longer);

    let source_len: usize = buffer.pcm.len();
    if source_len < params.max_ingest_samples {
        assert(ingest_levels(loudness, before, samples, speech, params, Seq::empty()));
        return IngestOutcome::Pending;
    }
    let max_keep_without_starving: usize = params.max_ingest_samples.saturating_sub(1_600);
    let bounded: usize = if params.keep_context_samples <= max_keep_without_starving {
        params.keep_context_samples
    } else {
        max_keep_without_starving
    };
    let keep: usize = if bounded <= source_len {
        bounded
    } else {
        source_len
    };
    assert(keep == params.keep(source_len as int));
    assert(max_keep_without_starving == params.max_keep());
    let split_at: usize = choose_rollover_split_index(
        buffer.pcm.as_slice(),
        keep,
        max_keep_without_starving,
        loudness,
    );
    let ghost levels = choose|levels: Seq<u32>|
        #![trigger levels_of(loudness, longer.pcm, keep as int, max_keep_without_starving as int, levels)]
        levels_of(loudness, longer.pcm, keep as int, max_keep_without_starving as int, levels)
            && split_at == split_index(
            source_len as int,
            keep as int,
            max_keep_without_starving as int,
            levels,
        );
    assert(ingest_levels(loudness, before, samples, speech, params, levels));
    if split_at < 1_600 {
        return IngestOutcome::Pending;
    }
    proof {
        lemma_split_index_in_range(
            source_len as int,
            keep as int,
            max_keep_without_starving as int,
            levels,
        );
        lemma_prorated(buffer.voiced_ticks, split_at as int, source_len as int);
    }
    let start_ts: Nanos = match buffer.utterance_start {
        Some(start) => start,
        None => now,
    };
    let voiced_before: u32 = buffer.voiced_ticks;
    proof {
        let v = voiced_before as int;
        let a = split_at as int;
        assert(v * a <= 0xffff_ffff * 0xffff_ffff_ffff_ffff) by (nonlinear_arith)
            requires
                0 <= v <= 0xffff_ffff,
                0 <= a <= 0xffff_ffff_ffff_ffff,
        ;
    }
    let voiced_ticks: u32 = (voiced_before as u128 * split_at as u128 / source_len as u128) as u32;
    let mut pcm = buffer.pcm.split_off(split_at);
    std::mem::swap(&mut pcm, &mut buffer.pcm);
    let carried_tail_ms: u64 = (buffer.pcm.len() / 16) as u64;
    buffer.voiced_ticks = voiced_before - voiced_ticks;
    buffer.utterance_start = Some(time::moved_back_by_ms(now, carried_tail_ms));
    assert(pcm@ =~= longer.pcm.take(split_at as int));
    assert(buffer.pcm@ =~= longer.pcm.skip(split_at as int));
    IngestOutcome::Rollover { start_ts, pcm, voiced_ticks }
}

/// The buffer and the outcome after one more silent tick: at the threshold, all audio is handed
/// out and the buffer is left empty.
pub open spec fn silenced<T>(buffer: pipeline::BufferView<T>, threshold: u32, now: Nanos) -> (
    pipeline::BufferView<T>,
    OutcomeView<T>,
) {
    let silent_ticks = next_tick(buffer.silent_ticks);
    if silent_ticks < threshold || buffer.pcm.len() == 0 {
        (pipeline::BufferView { silent_ticks, ..buffer }, OutcomeView::Pending)
    } else {
        (
            pipeline::BufferView {
                pcm: Seq::empty(),
                silent_ticks: 0,
                voiced_ticks: 0,
                utterance_start: None,
            },
            OutcomeView::Endpoint {
                start_ts: match buffer.utterance_start {
                    Some(start) => start,
                    None => now,
                },
                pcm: buffer.pcm,
                voiced_ticks: buffer.voiced_ticks,
                silent_ticks,
            },
        )
    }
}

/// Takes one silent tick in, and ends the utterance after enough of them.
pub fn advance_silence<T>(
    buffer: &mut UserAudioBuffer<T>,
    params: IngestParams,
    now: Nanos,
) -> (r: IngestOutcome<T>)
    ensures
        (final(buffer)@, r@) == silenced(old(buffer)@, params.silence_ticks_threshold, now),
{
    buffer.silent_ticks = buffer.silent_ticks.saturating_add(1);
    if buffer.silent_ticks < params.silence_ticks_threshold || buffer.pcm.len() == 0 {
        return IngestOutcome::Pending;
    }
    let start_ts: Nanos = match buffer.utterance_start.take() {
        Some(start) => start,
        None => now,
    };
    let mut pcm: Vec<T> = Vec::new();
    std::mem::swap(&mut pcm, &mut buffer.pcm);
    let voiced_ticks: u32 = buffer.voiced_ticks;
    let silent_ticks: u32 = buffer.silent_ticks;
    buffer.voiced_ticks = 0;
    buffer.silent_ticks = 0;
    IngestOutcome::Endpoint { start_ts, pcm, voiced_ticks, silent_ticks }
}

// ---------------------------------------------------------------------------
// Laws of taking audio in
// ---------------------------------------------------------------------------

/// What an outcome hands out.
pub open spec fn handed_out<T>(outcome: OutcomeView<T>) -> Seq<T> {
    match outcome {
        OutcomeView::Pending => Seq::empty(),
        OutcomeView::Rollover { pcm, .. } => pcm,
        OutcomeView::Endpoint { pcm, .. } => pcm,
    }
}

/// The voiced ticks that an outcome hands out.
pub open spec fn voiced_out<T>(outcome: OutcomeView<T>) -> u32 {
    match outcome {
        OutcomeView::Pending => 0,
        OutcomeView::Rollover { voiced_ticks, .. } => voiced_ticks,
        OutcomeView::Endpoint { voiced_ticks, .. } => voiced_ticks,
    }
}

/// The levels have the number that the search for a split asks for.
pub open spec fn enough_levels<T>(
    buffer: pipeline::BufferView<T>,
    samples: Seq<T>,
    params: IngestParams,
    levels: Seq<u32>,
) -> bool {
    let len = (buffer.pcm + samples).len() as int;
    split_searched(len, params.max_keep()) ==> levels.len() == split_tries(
        len,
        params.keep(len),
        params.max_keep(),
    )
}

/// No sample is lost and none is made up: what is handed out, followed by what stays, is what was
/// there, followed by the chunk. The voiced ticks are shared out between the two in the same way.
pub proof fn law_ingest_conserves_audio<T>(
    buffer: pipeline::BufferView<T>,
    samples: Seq<T>,
    speech: bool,
    params: IngestParams,
    now: Nanos,
    levels: Seq<u32>,
)
    requires
        takes_in(buffer, samples, speech),
        enough_levels(buffer, samples, params, levels),
    ensures
        ({
            let (after, outcome) = ingested(buffer, samples, speech, params, now, levels);
            &&& handed_out(outcome) + after.pcm == buffer.pcm + samples
            &&& voiced_out(outcome) + after.voiced_ticks == extended(
                buffer,
                samples,
                speech,
                now,
            ).voiced_ticks
            &&& after.utterance_start is Some
            &&& outcome matches OutcomeView::Rollover { pcm, .. } ==> pcm.len() >= 1_600
        }),
{
    let longer = extended(buffer, samples, speech, now);
    let len = longer.pcm.len() as int;
    let at = split_index(len, params.keep(len), params.max_keep(), levels);
    lemma_split_index_in_range(len, params.keep(len), params.max_keep(), levels);
    lemma_prorated(longer.voiced_ticks, at, len);
    let (after, outcome) = ingested(buffer, samples, speech, params, now, levels);
    assert(handed_out(outcome) + after.pcm =~= buffer.pcm + samples);
}

/// One chunk, the time it came and the levels that decide where the buffer is split after it.
pub ghost struct IngestStep<T> {
    pub samples: Seq<T>,
    pub speech: bool,
    pub now: Nanos,
    pub levels: Seq<u32>,
}

/// The buffer after the steps, and all that was handed out on the way.
pub open spec fn ingest_run<T>(
    buffer: pipeline::BufferView<T>,
    steps: Seq<IngestStep<T>>,
    params: IngestParams,
) -> (pipeline::BufferView<T>, Seq<T>)
    decreases steps.len(),
{
    if steps.len() == 0 {
        (buffer, Seq::empty())
    } else {
        let (before, out) = ingest_run(buffer, steps.drop_last(), params);
        let step = steps.last();
        let (after, outcome) = ingested(
            before,
            step.samples,
            step.speech,
            params,
            step.now,
            step.levels,
        );
        (after, out + handed_out(outcome))
    }
}

/// The samples of all steps, one after another.
pub open spec fn all_samples<T>(steps: Seq<IngestStep<T>>) -> Seq<T>
    decreases steps.len(),
{
    if steps.len() == 0 {
        Seq::empty()
    } else {
        all_samples(steps.drop_last()) + steps.last().samples
    }
}

/// Every step's levels have the number that its search for a split asks for.
pub open spec fn enough_levels_throughout<T>(
    buffer: pipeline::BufferView<T>,
    steps: Seq<IngestStep<T>>,
    params: IngestParams,
) -> bool
    decreases steps.len(),
{
    steps.len() > 0 ==> {
        &&& enough_levels_throughout(buffer, steps.drop_last(), params)
        &&& enough_levels(
            ingest_run(buffer, steps.drop_last(), params).0,
            steps.last().samples,
            params,
            steps.last().levels,
        )
    }
}

/// However often a running utterance is rolled over, all that was handed out, followed by what
/// is still in the buffer, is the audio that came in, in its order.
pub proof fn law_rollovers_conserve_audio<T>(
    buffer: pipeline::BufferView<T>,
    steps: Seq<IngestStep<T>>,
    params: IngestParams,
)
    requires
        buffer.utterance_start is Some,
        enough_levels_throughout(buffer, steps, params),
    ensures
        ({
            let (after, out) = ingest_run(buffer, steps, params);
            &&& out + after.pcm == buffer.pcm + all_samples(steps)
            &&& after.utterance_start is Some
        }),
    decreases steps.len(),
{
    if steps.len() == 0 {
        assert(Seq::<T>::empty() + buffer.pcm =~= buffer.pcm + Seq::<T>::empty());
    } else {
        let shorter = steps.drop_last();
        law_rollovers_conserve_audio(buffer, shorter, params);
        let (before, out) = ingest_run(buffer, shorter, params);
        let step = steps.last();
        let (after, outcome) = ingested(
            before,
            step.samples,
            step.speech,
            params,
            step.now,
            step.levels,
        );
        if takes_in(before, step.samples, step.speech) {
            law_ingest_conserves_audio(
                before,
                step.samples,
                step.speech,
                params,
                step.now,
                step.levels,
            );
        } else {
            assert(step.samples =~= Seq::<T>::empty());
            assert(handed_out(outcome) + after.pcm =~= before.pcm + step.samples);
        }
        assert((out + handed_out(outcome)) + after.pcm =~= out + (handed_out(outcome) + after.pcm));
        assert(out + (before.pcm + step.samples) =~= (out + before.pcm) + step.samples);
        assert((buffer.pcm + all_samples(shorter)) + step.samples =~= buffer.pcm + (all_samples(
            shorter,
        ) + step.samples));
    }
}

/// The buffer after `ticks` silent ticks.
pub open spec fn silent_run<T>(
    buffer: pipeline::BufferView<T>,
    ticks: nat,
    threshold: u32,
    now: Nanos,
) -> pipeline::BufferView<T>
    decreases ticks,
{
    if ticks == 0 {
        buffer
    } else {
        silenced(silent_run(buffer, (ticks - 1) as nat, threshold, now), threshold, now).0
    }
}

/// In unbroken silence, the utterance ends at the tick that brings the count to the threshold, at
/// none before and, until audio comes in again, at none after.
pub proof fn law_endpoint_fires_once<T>(
    buffer: pipeline::BufferView<T>,
    ticks: nat,
    threshold: u32,
    now: Nanos,
)
    requires
        buffer.pcm.len() > 0,
        buffer.silent_ticks < threshold,
    ensures
        silenced(silent_run(buffer, ticks, threshold, now), threshold, now).1 is Endpoint <==> ticks
            + 1 == threshold - buffer.silent_ticks,
        ticks < threshold - buffer.silent_ticks ==> silent_run(buffer, ticks, threshold, now) == (
        pipeline::BufferView { silent_ticks: (buffer.silent_ticks + ticks) as u32, ..buffer }),
        ticks >= threshold - buffer.silent_ticks ==> silent_run(
            buffer,
            ticks,
            threshold,
            now,
        ).pcm.len() == 0,
    decreases ticks,
{
    if ticks > 0 {
        law_endpoint_fires_once(buffer, (ticks - 1) as nat, threshold, now);
    }
}

/// What one chunk does to a buffer, told by the buffer's fields alone. A chunk that is empty, or
/// that is silent while no utterance runs, does nothing. Any other goes behind the audio: speech
/// sets the count of silent ticks back to zero and counts as one voiced tick, silence changes
/// neither; an utterance that was not running begins now; and no utterance ends with a chunk.
/// What a rollover hands out is the front of the audio, with its share of the voiced ticks rounded
/// down, and the rest goes on from the time that its length reaches back to.
pub proof fn law_chunk_extends_the_utterance<T>(
    buffer: pipeline::BufferView<T>,
    samples: Seq<T>,
    speech: bool,
    params: IngestParams,
    now: Nanos,
    levels: Seq<u32>,
)
    requires
        enough_levels(buffer, samples, params, levels),
    ensures
        ({
            let (after, outcome) = ingested(buffer, samples, speech, params, now, levels);
            let ignored = samples.len() == 0 || (buffer.utterance_start is None && !speech);
            let begun = match buffer.utterance_start {
                Some(start) => start,
                None => now,
            };
            let voiced = if speech && buffer.voiced_ticks < 0xffff_ffff {
                buffer.voiced_ticks + 1
            } else {
                buffer.voiced_ticks as int
            };
            let len = buffer.pcm.len() + samples.len();
            &&& ignored ==> after == buffer && outcome is Pending
            &&& !ignored ==> !(outcome is Endpoint)
            &&& !ignored ==> after.silent_ticks == (if speech {
                0
            } else {
                buffer.silent_ticks
            })
            &&& !ignored && outcome is Pending ==> {
                &&& after.pcm == buffer.pcm + samples
                &&& after.voiced_ticks == voiced
                &&& after.utterance_start == Some(begun)
            }
            &&& !ignored && len < params.max_ingest_samples ==> outcome is Pending
            &&& !ignored && len >= params.max_ingest_samples && len >= 3_200 ==> outcome is Rollover
            &&& outcome matches OutcomeView::Rollover { start_ts, pcm, voiced_ticks } ==> {
                &&& start_ts == begun
                &&& pcm + after.pcm == buffer.pcm + samples
                &&& pcm.len() >= 1_600
                &&& len >= 3_200 ==> after.pcm.len() >= 1_600
                &&& voiced_ticks + after.voiced_ticks == voiced
                &&& voiced_ticks * len <= voiced * pcm.len() < voiced_ticks * len + len
                &&& after.utterance_start == Some(
                    (if after.pcm.len() / 16 * 1_000_000 <= now {
                        now - after.pcm.len() / 16 * 1_000_000
                    } else {
                        now as int
                    }) as u64,
                )
            }
        }),
{
    let (after, outcome) = ingested(buffer, samples, speech, params, now, levels);
    let longer = extended(buffer, samples, speech, now);
    let len = longer.pcm.len() as int;
    let at = split_index(len, params.keep(len), params.max_keep(), levels);
    lemma_split_index_in_range(len, params.keep(len), params.max_keep(), levels);
    if len >= 3_200 {
        law_split_leaves_both_sides(len, params.keep(len), params.max_keep(), levels);
    }
    if len > 0 {
        lemma_prorated(longer.voiced_ticks, at, len);
    }
    if let OutcomeView::Rollover { start_ts, pcm, voiced_ticks } = outcome {
        assert(pcm + after.pcm =~= buffer.pcm + samples);
        let (v, q) = (longer.voiced_ticks as int, voiced_ticks as int);
        assert(q * len <= v * at < q * len + len) by (nonlinear_arith)
            requires
                q == v * at / len,
                len > 0,
        ;
    }
}

/// What a silent tick does to a buffer, told by its fields alone: it counts, and where it brings
/// the count to the threshold while there is audio, all of the audio is handed out with the time
/// at which it began, its voiced ticks and the count, and nothing stays.
pub proof fn law_silent_tick_counts<T>(
    buffer: pipeline::BufferView<T>,
    threshold: u32,
    now: Nanos,
)
    ensures
        ({
            let (after, outcome) = silenced(buffer, threshold, now);
            let counted = if buffer.silent_ticks < 0xffff_ffff {
                buffer.silent_ticks + 1
            } else {
                0xffff_ffff
            };
            &&& !(outcome is Rollover)
            &&& outcome is Endpoint <==> counted >= threshold && buffer.pcm.len() > 0
            &&& outcome is Pending ==> {
                &&& after.silent_ticks == counted
                &&& after.pcm == buffer.pcm
                &&& after.voiced_ticks == buffer.voiced_ticks
                &&& after.utterance_start == buffer.utterance_start
            }
            &&& outcome matches OutcomeView::Endpoint {
                start_ts,
                pcm,
                voiced_ticks,
                silent_ticks,
            } ==> {
                &&& pcm == buffer.pcm
                &&& voiced_ticks == buffer.voiced_ticks
                &&& silent_ticks == counted
                &&& start_ts == (match buffer.utterance_start {
                    Some(start) => start,
                    None => now,
                })
                &&& after.pcm.len() == 0
                &&& after.silent_ticks == 0
                &&& after.voiced_ticks == 0
                &&& after.utterance_start is None
            }
        }),
{
}

/// What happens to a speaker's buffer: a chunk comes in, or a tick passes in silence.
pub ghost enum AudioEvent<T> {
    Chunk { samples: Seq<T>, speech: bool, now: Nanos, levels: Seq<u32> },
    Silence { now: Nanos },
}

/// Speech comes in with the event.
pub open spec fn speaks<T>(event: AudioEvent<T>) -> bool {
    event matches AudioEvent::Chunk { samples, speech, .. } && samples.len() > 0 && speech
}

/// The buffer and the outcome of one event.
pub open spec fn event_after<T>(
    buffer: pipeline::BufferView<T>,
    event: AudioEvent<T>,
    params: IngestParams,
) -> (pipeline::BufferView<T>, OutcomeView<T>) {
    match event {
        AudioEvent::Chunk { samples, speech, now, levels } => ingested(
            buffer,
            samples,
            speech,
            params,
            now,
            levels,
        ),
        AudioEvent::Silence { now } => silenced(buffer, params.silence_ticks_threshold, now),
    }
}

/// The buffer of a speaker after the events, when there was none before.
pub open spec fn buffer_after<T>(
    events: Seq<AudioEvent<T>>,
    params: IngestParams,
) -> pipeline::BufferView<T>
    decreases events.len(),
{
    if events.len() == 0 {
        pipeline::BufferView {
            pcm: Seq::empty(),
            silent_ticks: 0,
            voiced_ticks: 0,
            utterance_start: None,
        }
    } else {
        event_after(buffer_after(events.drop_last(), params), events.last(), params).0
    }
}

/// The outcome of the last event.
pub open spec fn last_outcome<T>(
    events: Seq<AudioEvent<T>>,
    params: IngestParams,
) -> OutcomeView<T> {
    event_after(buffer_after(events.drop_last(), params), events.last(), params).1
}

/// The utterance ends with the last event.
pub open spec fn ends_utterance<T>(events: Seq<AudioEvent<T>>, params: IngestParams) -> bool {
    events.len() > 0 && last_outcome(events, params) is Endpoint
}

/// The ticks that passed in silence since speech last came in, or since the last utterance ended.
pub open spec fn silence_since_speech<T>(
    events: Seq<AudioEvent<T>>,
    params: IngestParams,
) -> nat
    decreases events.len(),
{
    if events.len() == 0 || speaks(events.last()) || ends_utterance(events, params) {
        0
    } else {
        let before = silence_since_speech(events.drop_last(), params);
        if events.last() is Silence {
            before + 1
        } else {
            before
        }
    }
}

/// An utterance runs: speech came in, and none ended since.
pub open spec fn utterance_runs<T>(events: Seq<AudioEvent<T>>, params: IngestParams) -> bool
    decreases events.len(),
{
    events.len() > 0 && !ends_utterance(events, params) && (speaks(events.last())
        || utterance_runs(events.drop_last(), params))
}

/// The samples that came in while an utterance ran.
pub open spec fn samples_of_utterances<T>(
    events: Seq<AudioEvent<T>>,
    params: IngestParams,
) -> Seq<T>
    decreases events.len(),
{
    if events.len() == 0 {
        Seq::empty()
    } else {
        let before = samples_of_utterances(events.drop_last(), params);
        match events.last() {
            AudioEvent::Chunk { samples, .. } => if utterance_runs(events, params) {
                before + samples
            } else {
                before
            },
            AudioEvent::Silence { .. } => before,
        }
    }
}

/// How many of the events brought speech.
pub open spec fn times_spoken<T>(events: Seq<AudioEvent<T>>) -> nat
    decreases events.len(),
{
    if events.len() == 0 {
        0
    } else {
        times_spoken(events.drop_last()) + (if speaks(events.last()) {
            1nat
        } else {
            0
        })
    }
}

/// All audio that the events handed out, and the voiced ticks that went with it.
pub open spec fn all_handed_out<T>(
    events: Seq<AudioEvent<T>>,
    params: IngestParams,
) -> (Seq<T>, nat)
    decreases events.len(),
{
    if events.len() == 0 {
        (Seq::empty(), 0)
    } else {
        let (audio, voiced) = all_handed_out(events.drop_last(), params);
        match last_outcome(events, params) {
            OutcomeView::Pending => (audio, voiced),
            OutcomeView::Rollover { pcm, voiced_ticks, .. } => (
                audio + pcm,
                voiced + voiced_ticks as nat,
            ),
            OutcomeView::Endpoint { pcm, voiced_ticks, .. } => (
                audio + pcm,
                voiced + voiced_ticks as nat,
            ),
        }
    }
}

/// The levels of every chunk have the number that its search for a split asks for.
pub open spec fn levels_suffice<T>(events: Seq<AudioEvent<T>>, params: IngestParams) -> bool
    decreases events.len(),
{
    events.len() > 0 ==> {
        &&& levels_suffice(events.drop_last(), params)
        &&& events.last() matches AudioEvent::Chunk { samples, levels, .. } ==> enough_levels(
            buffer_after(events.drop_last(), params),
            samples,
            params,
            levels,
        )
    }
}

/// Endpoints come from unbroken silence only. After any run of chunks and silent ticks the count
/// of silent ticks is that since speech last came in or since the last utterance ended; an
/// utterance runs exactly since speech came in; and an utterance ends exactly with the tick that
/// brings the silence without any speech in it to the threshold, while there is audio.
pub proof fn law_endpoints_need_unbroken_silence<T>(
    events: Seq<AudioEvent<T>>,
    params: IngestParams,
)
    requires
        levels_suffice(events, params),
        events.len() <= 0xffff_ffff,
    ensures
        buffer_after(events, params).silent_ticks == silence_since_speech(events, params),
        buffer_after(events, params).utterance_start is Some <==> utterance_runs(events, params),
        silence_since_speech(events, params) <= events.len(),
        buffer_after(events, params).pcm.len() > 0 ==> utterance_runs(events, params),
        events.len() > 0 ==> (ends_utterance(events, params) <==> {
            &&& events.last() is Silence
            &&& silence_since_speech(events.drop_last(), params) + 1
                >= params.silence_ticks_threshold
            &&& buffer_after(events.drop_last(), params).pcm.len() > 0
        }),
        events.len() > 0 ==> (last_outcome(events, params) matches OutcomeView::Endpoint {
            silent_ticks,
            ..
        } ==> silent_ticks == silence_since_speech(events.drop_last(), params) + 1),
    decreases events.len(),
{
    if events.len() > 0 {
        let shorter = events.drop_last();
        law_endpoints_need_unbroken_silence(shorter, params);
        let before = buffer_after(shorter, params);
        match events.last() {
            AudioEvent::Chunk { samples, speech, now, levels } => {
                law_chunk_extends_the_utterance(before, samples, speech, params, now, levels);
                let (after, outcome) = ingested(before, samples, speech, params, now, levels);
                if outcome is Pending && after.pcm == before.pcm + samples {
                    assert(samples.len() == 0 ==> after.pcm.len() == before.pcm.len());
                }
            },
            AudioEvent::Silence { now } => {
                law_silent_tick_counts(before, params.silence_ticks_threshold, now);
            },
        }
    }
}

/// Over any run of chunks and silent ticks no audio of an utterance is lost, none is made up and
/// none is handed out twice: all that was handed out, followed by what is still there, is what
/// came in while an utterance ran; and every chunk of speech counts as one voiced tick, once.
pub proof fn law_utterances_conserve_audio<T>(
    events: Seq<AudioEvent<T>>,
    params: IngestParams,
)
    requires
        levels_suffice(events, params),
        events.len() < 0xffff_ffff,
    ensures
        all_handed_out(events, params).0 + buffer_after(events, params).pcm
            == samples_of_utterances(events, params),
        all_handed_out(events, params).1 + buffer_after(events, params).voiced_ticks
            == times_spoken(events),
        times_spoken(events) <= events.len(),
    decreases events.len(),
{
    law_endpoints_need_unbroken_silence(events, params);
    if events.len() == 0 {
        assert(all_handed_out(events, params).0 + buffer_after(events, params).pcm
            =~= samples_of_utterances(events, params));
    } else {
        let shorter = events.drop_last();
        law_endpoints_need_unbroken_silence(shorter, params);
        law_utterances_conserve_audio(shorter, params);
        let before = buffer_after(shorter, params);
        let after = buffer_after(events, params);
        let out = all_handed_out(shorter, params).0;
        let handed = handed_out(last_outcome(events, params));
        match events.last() {
            AudioEvent::Chunk { samples, speech, now, levels } => {
                law_chunk_extends_the_utterance(before, samples, speech, params, now, levels);
                if utterance_runs(events, params) {
                    assert(handed + after.pcm =~= before.pcm + samples);
                    assert((out + handed) + after.pcm =~= out + (handed + after.pcm));
                    assert(out + (before.pcm + samples) =~= (out + before.pcm) + samples);
                }
                assert(all_handed_out(events, params).0 =~= out + handed);
            },
            AudioEvent::Silence { now } => {
                law_silent_tick_counts(before, params.silence_ticks_threshold, now);
                assert(handed + after.pcm =~= before.pcm);
                assert((out + handed) + after.pcm =~= out + (handed + after.pcm));
                assert(all_handed_out(events, params).0 =~= out + handed);
            },
        }
        assert(all_handed_out(events, params).0 + after.pcm =~= samples_of_utterances(
            events,
            params,
        ));
    }
}

/// Where long audio is split, told by numbers alone: no more than `max_keep` samples stay, as far
/// as a tenth of a second can go; the split is at most 8000 samples, and at most half of `keep` or
/// 800, from the place that keeps `keep` samples, where that place lies within the bounds.
pub proof fn law_split_stays_near(len: int, keep: int, max_keep: int, levels: Seq<u32>)
    requires
        len >= 3_200,
        keep >= 0,
        max_keep >= 0,
        split_searched(len, max_keep) ==> levels.len() == split_tries(len, keep, max_keep),
    ensures
        ({
            let at = split_index(len, keep, max_keep, levels);
            let radius = if keep / 2 < 800 {
                800
            } else if keep / 2 > 8_000 {
                8_000
            } else {
                keep / 2
            };
            &&& 1_600 <= at <= len - 1_600
            &&& len - max_keep <= len - 1_600 ==> len - at <= max_keep || max_keep < 1_600
            &&& 1_600 <= keep <= max_keep && keep <= len - 1_600 && max_keep > 1_600 && len > 3_200
                ==> len - keep - radius <= at <= len - keep + radius
        }),
{
    law_split_leaves_both_sides(len, keep, max_keep, levels);
    if split_searched(len, max_keep) {
        lemma_first_lowest(levels);
    }
}

/// How a quiet place is found, told by numbers alone. It is looked for wherever there is room
/// between the bounds. The places that are tried begin at the first within the radius and the
/// bounds, lie 160 samples apart and leave out none up to the end; the split is the first of the
/// quietest, and the place that keeps `keep` samples where none has a level.
pub proof fn law_split_is_the_first_of_the_quietest(
    len: int,
    keep: int,
    max_keep: int,
    levels: Seq<u32>,
)
    requires
        len >= 3_200,
        0 <= keep <= max_keep,
        keep <= len,
    ensures
        split_searched(len, max_keep) <==> len > 3_200 && max_keep > 1_600,
        split_searched(len, max_keep) && levels.len() == split_tries(len, keep, max_keep) ==> {
            let at = split_index(len, keep, max_keep, levels);
            let first = split_place(len, keep, max_keep, 0);
            let last = split_place(len, keep, max_keep, levels.len() - 1);
            let wished = if len - keep < 1_600 {
                1_600
            } else if len - keep > len - 1_600 {
                len - 1_600
            } else {
                len - keep
            };
            let radius = if keep / 2 < 800 {
                800
            } else if keep / 2 > 8_000 {
                8_000
            } else {
                keep / 2
            };
            &&& levels.len() > 0
            &&& forall|k: int| #[trigger] split_place(len, keep, max_keep, k) == first + 160 * k
            &&& first == max_int(max_int(wished - radius, len - max_keep), 1_600)
            &&& last <= wished + radius && last <= len - 1_600
            &&& last + 160 > wished + radius || last + 160 > len - 1_600
            &&& (forall|k: int| 0 <= k < levels.len() ==> #[trigger] levels[k] >= 0x7f80_0000)
                ==> at == wished
            &&& (exists|k: int| 0 <= k < levels.len() && #[trigger] levels[k] < 0x7f80_0000)
                ==> exists|best: int| #[trigger]
                is_first_lowest(levels, best) && at == first + 160 * best
        },
{
    if split_searched(len, max_keep) && levels.len() == split_tries(len, keep, max_keep) {
        lemma_first_lowest(levels);
        assert(is_first_lowest(levels, first_lowest(levels)));
    }
}

/// The level at `best` is the first that no other is below.
pub open spec fn is_first_lowest(levels: Seq<u32>, best: int) -> bool {
    &&& 0 <= best < levels.len()
    &&& forall|k: int| 0 <= k < levels.len() ==> levels[best] <= #[trigger] levels[k]
    &&& forall|k: int| 0 <= k < best ==> levels[best] < #[trigger] levels[k]
}

/// The window that decides over a place has 800 samples, half of them before the place wherever
/// there are as many on either side.
pub proof fn law_window_lies_round_its_place<T>(pcm: Seq<T>, at: int)
    requires
        pcm.len() >= 800,
        400 <= at <= pcm.len() - 400,
    ensures
        split_window(pcm, at).len() == 800,
        forall|i: int| 0 <= i < 800 ==> #[trigger] split_window(pcm, at)[i] == pcm[at - 400 + i],
{
}

/// A rollover leaves about the configured context behind: it differs from it by no more than half
/// of it, and by no more than 8000 samples, and never leaves so much that the next rollover would
/// have less than a tenth of a second to hand out.
pub proof fn law_rollover_leaves_the_context<T>(
    buffer: pipeline::BufferView<T>,
    samples: Seq<T>,
    speech: bool,
    params: IngestParams,
    now: Nanos,
    levels: Seq<u32>,
)
    requires
        enough_levels(buffer, samples, params, levels),
        ingested(buffer, samples, speech, params, now, levels).1 is Rollover,
        params.max_ingest_samples > 3_200,
    ensures
        ({
            let stays = ingested(buffer, samples, speech, params, now, levels).0.pcm.len();
            let context = params.keep_context_samples;
            &&& 1_600 <= stays <= params.max_ingest_samples - 1_600
            &&& 1_600 <= context <= params.max_ingest_samples - 1_600 ==> {
                &&& stays <= context + 8_000 && context <= stays + 8_000
                &&& stays <= context + context / 2 && context <= stays + context / 2
            }
            &&& context > params.max_ingest_samples - 1_600 ==> stays + 8_000
                >= params.max_ingest_samples - 1_600
        }),
{
    let len = (buffer.pcm + samples).len() as int;
    law_split_stays_near(len, params.keep(len), params.max_keep(), levels);
    law_split_leaves_both_sides(len, params.keep(len), params.max_keep(), levels);
    law_chunk_extends_the_utterance(buffer, samples, speech, params, now, levels);
}

/// An outcome is told as it is.
pub proof fn law_outcomes_are_told_as_they_are<T>(
    start_ts: Nanos,
    pcm: Vec<T>,
    voiced_ticks: u32,
    silent_ticks: u32,
)
    ensures
        IngestOutcome::<T>::Pending@ == OutcomeView::<T>::Pending,
        (IngestOutcome::Rollover { start_ts, pcm, voiced_ticks })@ == (OutcomeView::Rollover {
            start_ts,
            pcm: pcm@,
            voiced_ticks,
        }),
        (IngestOutcome::Endpoint { start_ts, pcm, voiced_ticks, silent_ticks })@ == (
        OutcomeView::Endpoint { start_ts, pcm: pcm@, voiced_ticks, silent_ticks }),
{
}

} // verus!
